//! What the keys of a file's metadata come to.

use vstd::arithmetic::div_mod::{lemma_fundamental_div_mod, lemma_fundamental_div_mod_converse};
use vstd::prelude::*;

use crate::config::{declared_counts, normalized};
use crate::error::{ErrorView, IngestionErrorKind};
use crate::float::{at_most_zero, narrowed, widened_single};
use crate::metadata::{float_at, string_at, texts_among, texts_at, uint_at};
use crate::metadata::{GgufMetadataValue, MetadataView};
use crate::model::ModelArchitectureConfig;
use crate::text::decimal_text;

verus! {

/// Whether metadata declares a number under a key: an unsigned one of 32 or of 64 bits.
pub open spec fn declares(metadata: MetadataView, key: Seq<char>, number: int) -> bool {
    &&& metadata.contains_key(key)
    &&& {
        ||| metadata[key] is UInt32 && metadata[key]->UInt32_0 == number
        ||| metadata[key] is UInt64 && metadata[key]->UInt64_0 == number
    }
}

/// Whether metadata declares no number under a key: what stands there, if anything does, is
/// something else.
pub open spec fn declares_no_number(metadata: MetadataView, key: Seq<char>) -> bool {
    metadata.contains_key(key) ==> !(metadata[key] is UInt32) && !(metadata[key] is UInt64)
}

/// Whether metadata declares a text under a key.
pub open spec fn declares_text(metadata: MetadataView, key: Seq<char>, text: Seq<char>) -> bool {
    &&& metadata.contains_key(key)
    &&& metadata[key] is String
    &&& metadata[key]->String_0@ == text
}

/// Whether metadata declares a fraction under a key: a double with this bit pattern, or a single
/// that widens to it.
pub open spec fn declares_fraction(metadata: MetadataView, key: Seq<char>, bits: u64) -> bool {
    &&& metadata.contains_key(key)
    &&& {
        ||| metadata[key] is Float64 && metadata[key]->Float64_0 == bits
        ||| metadata[key] is Float32 && widened_single(metadata[key]->Float32_0) == bits
    }
}

/// Whether metadata declares no fraction under a key.
pub open spec fn declares_no_fraction(metadata: MetadataView, key: Seq<char>) -> bool {
    metadata.contains_key(key) ==> !(metadata[key] is Float32) && !(metadata[key] is Float64)
}

/// What is read under a key is what metadata declares there, each kind of value for itself: a
/// number where an unsigned number stands there, a fraction where a fraction does, a text where a
/// text does, and nothing where something else stands there or nothing at all.
pub proof fn keys_hold_what_they_declare(
    metadata: MetadataView,
    key: Seq<char>,
    number: u64,
    bits: u64,
    text: Seq<char>,
)
    ensures
        uint_at(metadata, key) == Some(number) <==> declares(metadata, key, number as int),
        uint_at(metadata, key) is None <==> declares_no_number(metadata, key),
        float_at(metadata, key) == Some(bits) <==> declares_fraction(metadata, key, bits),
        float_at(metadata, key) is None <==> declares_no_fraction(metadata, key),
        string_at(metadata, key) == Some(text) <==> declares_text(metadata, key, text),
        string_at(metadata, key) is None <==> (metadata.contains_key(key) ==> !(metadata[key]
            is String)),
        texts_at(metadata, key) is Some <==> metadata.contains_key(key) && metadata[key] is Array,
        texts_at(metadata, key) matches Some(texts) ==> texts == texts_among(
            metadata[key]->Array_0@,
        ),
{
}

/// An array gives its texts in their order, and what is no text in it is passed over: an array
/// that begins with a text begins with it, one that begins with something else is as if it did
/// not, and where all are texts each keeps its place.
pub proof fn arrays_give_their_texts(values: Seq<GgufMetadataValue>)
    ensures
        texts_among(Seq::empty()) == Seq::<Seq<char>>::empty(),
        values.len() > 0 && values[0] is String ==> texts_among(values) == seq![
            values[0]->String_0@,
        ] + texts_among(values.skip(1)),
        values.len() > 0 && !(values[0] is String) ==> texts_among(values) == texts_among(
            values.skip(1),
        ),
        (forall|at: int| 0 <= at < values.len() ==> #[trigger] values[at] is String) ==> {
            &&& texts_among(values).len() == values.len()
            &&& forall|at: int|
                0 <= at < values.len() ==> #[trigger] texts_among(values)[at]
                    == values[at]->String_0@
        },
    decreases values.len(),
{
    if values.len() > 0 {
        let shorter = values.drop_last();
        arrays_give_their_texts(shorter);
        assert(values.skip(1).len() == values.len() - 1);
        if values.len() == 1 {
            assert(values.skip(1) =~= Seq::<GgufMetadataValue>::empty());
            assert(shorter =~= Seq::<GgufMetadataValue>::empty());
        } else {
            assert(values.skip(1).drop_last() =~= shorter.skip(1));
            assert(values.skip(1).last() == values.last());
            assert(shorter[0] == values[0]);
        }
        if forall|at: int| 0 <= at < values.len() ==> #[trigger] values[at] is String {
            assert forall|at: int| 0 <= at < shorter.len() implies #[trigger] shorter[at]
                is String by {
                assert(shorter[at] == values[at]);
            }
            assert(values[values.len() - 1] is String);
            assert forall|at: int| 0 <= at < values.len() implies #[trigger] texts_among(values)[at]
                == values[at]->String_0@ by {
                if at < shorter.len() {
                    assert(shorter[at] == values[at]);
                    assert(texts_among(values)[at] == texts_among(shorter)[at]);
                }
            }
        }
    }
}

/// Where parameters are given out, every count is the unsigned number that its own key declares.
/// As many heads have keys and values as have queries unless the file says otherwise, and where it
/// does not say how wide a head is they share the hidden size evenly. The size of the vocabulary
/// is not the metadata's to say.
#[verifier::rlimit(50)]
pub proof fn counts_are_those_declared(metadata: MetadataView, vocab_size: u64)
    ensures
        normalized(metadata, vocab_size) matches Ok(config) ==> {
            let kv = "qwen2.attention.head_count_kv"@;
            let width = "qwen2.attention.key_length"@;
            &&& declares_text(metadata, "general.architecture"@, "qwen2"@)
            &&& declares(metadata, "qwen2.embedding_length"@, config.hidden_size as int)
            &&& declares(metadata, "qwen2.feed_forward_length"@, config.intermediate_size as int)
            &&& declares(metadata, "qwen2.block_count"@, config.num_hidden_layers as int)
            &&& declares(metadata, "qwen2.attention.head_count"@, config.num_attention_heads as int)
            &&& declares(metadata, kv, config.num_key_value_heads as int) || (declares_no_number(
                metadata,
                kv,
            ) && config.num_key_value_heads == config.num_attention_heads)
            &&& declares(metadata, width, config.head_dim as int) || (declares_no_number(
                metadata,
                width,
            ) && config.head_dim * config.num_attention_heads == config.hidden_size)
            &&& config.vocab_size == vocab_size
            &&& !config.tie_word_embeddings
            &&& !config.attention_bias
        },
{
    if let Ok(config) = normalized(metadata, vocab_size) {
        let counts = declared_counts(metadata)->Ok_0;
        let hidden = counts.hidden_size as int;
        let heads = counts.num_attention_heads as int;
        if hidden % heads == 0 {
            lemma_fundamental_div_mod(hidden, heads);
            assert(heads * (hidden / heads) == (hidden / heads) * heads) by (nonlinear_arith);
        }
    }
}

/// Where parameters are given out, every fraction is the one that its own key declares, the
/// epsilon and the scaling factor rounded to single precision. An epsilon that is not declared is
/// one millionth, a base frequency ten thousand, and a scaling factor none at all. The two
/// identifiers are the numbers of 32 bits that their keys declare.
#[verifier::rlimit(50)]
pub proof fn fractions_are_those_declared(metadata: MetadataView, vocab_size: u64, bits: u64)
    ensures
        normalized(metadata, vocab_size) matches Ok(config) ==> {
            let epsilon = "qwen2.attention.layer_norm_rms_epsilon"@;
            let base = "qwen2.rope.freq_base"@;
            let factor = "qwen2.rope.scaling.factor"@;
            &&& declares_fraction(metadata, epsilon, bits) ==> config.rms_norm_eps == narrowed(bits)
            &&& declares_no_fraction(metadata, epsilon) ==> config.rms_norm_eps == narrowed(
                0x3EB0_C6F7_A0B5_ED8D,
            )
            &&& declares_fraction(metadata, base, bits) ==> config.rope_theta == bits
            &&& declares_no_fraction(metadata, base) ==> config.rope_theta == 0x40C3_8800_0000_0000
            &&& declares_fraction(metadata, factor, bits) ==> config.rope_scaling_factor == Some(
                narrowed(bits),
            )
            &&& declares_no_fraction(metadata, factor) ==> config.rope_scaling_factor is None
            &&& is_declared_id(metadata, "tokenizer.ggml.bos_token_id"@, config.bos_token_id)
            &&& is_declared_id(metadata, "tokenizer.ggml.eos_token_id"@, config.eos_token_id)
        },
{
}

/// Whether an identifier is the one under a key: that of a number of 32 bits.
pub open spec fn is_declared_id(metadata: MetadataView, key: Seq<char>, id: Option<u32>) -> bool {
    match id {
        Some(id) => declares(metadata, key, id as int),
        None => forall|number: u32| !#[trigger] declares(metadata, key, number as int),
    }
}

/// When parameters are owed. A file of another architecture has none. Where the counts are
/// declared, parameters are given out exactly where none of them is zero or too large for its
/// place, the heads that have queries are a multiple of those that have keys, what all heads are
/// wide can be counted, and the base frequency is positive.
#[verifier::rlimit(50)]
pub proof fn sound_parameters_are_given_out(
    metadata: MetadataView,
    vocab_size: u64,
    hidden: u64,
    intermediate: u64,
    layers: u64,
    heads: u64,
    key_value_heads: u64,
    head_dim: u64,
    base: u64,
)
    requires
        declares(metadata, "qwen2.embedding_length"@, hidden as int),
        declares(metadata, "qwen2.feed_forward_length"@, intermediate as int),
        declares(metadata, "qwen2.block_count"@, layers as int),
        declares(metadata, "qwen2.attention.head_count"@, heads as int),
        declares(metadata, "qwen2.attention.head_count_kv"@, key_value_heads as int) || (
        declares_no_number(metadata, "qwen2.attention.head_count_kv"@) && key_value_heads == heads),
        declares(metadata, "qwen2.attention.key_length"@, head_dim as int) || (declares_no_number(
            metadata,
            "qwen2.attention.key_length"@,
        ) && head_dim * heads == hidden),
        declares_fraction(metadata, "qwen2.rope.freq_base"@, base) || (declares_no_fraction(
            metadata,
            "qwen2.rope.freq_base"@,
        ) && base == 0x40C3_8800_0000_0000),
    ensures
        normalized(metadata, vocab_size) is Ok <==> {
            &&& declares_text(metadata, "general.architecture"@, "qwen2"@)
            &&& hidden != 0 && intermediate != 0 && vocab_size != 0
            &&& 0 < layers < 0x1_0000_0000
            &&& 0 < heads < 0x1_0000_0000
            &&& 0 < key_value_heads < 0x1_0000_0000
            &&& heads % key_value_heads == 0
            &&& head_dim != 0
            &&& head_dim * heads < 0x1_0000_0000_0000_0000
            &&& !at_most_zero(base)
        },
{
    let h = heads as int;
    let total = hidden as int;
    if 0 < heads && declares_no_number(metadata, "qwen2.attention.key_length"@) {
        lemma_fundamental_div_mod_converse(total, h, head_dim as int, 0);
        if hidden != 0 {
            assert(head_dim != 0) by (nonlinear_arith)
                requires
                    head_dim * heads == hidden,
                    hidden != 0,
            ;
        }
    }
}

/// Where a head has no declared width, the hidden size has to be a multiple of the heads.
pub proof fn uneven_heads_are_refused(
    metadata: MetadataView,
    vocab_size: u64,
    hidden: u64,
    heads: u64,
)
    requires
        declares(metadata, "qwen2.embedding_length"@, hidden as int),
        declares(metadata, "qwen2.attention.head_count"@, heads as int),
        declares_no_number(metadata, "qwen2.attention.key_length"@),
        heads > 0,
        hidden as int % heads as int != 0,
    ensures
        normalized(metadata, vocab_size) is Err,
{
}

/// A count that is declared nowhere is missed, and the refusal names its key: the first of the
/// four that is missing. A file that names no architecture is malformed as well, and one that
/// names another is not supported.
#[verifier::rlimit(50)]
pub proof fn missing_counts_are_refused(metadata: MetadataView, vocab_size: u64)
    ensures
        ({
            let architecture = "general.architecture"@;
            let hidden = "qwen2.embedding_length"@;
            let intermediate = "qwen2.feed_forward_length"@;
            let layers = "qwen2.block_count"@;
            let heads = "qwen2.attention.head_count"@;
            let result = normalized(metadata, vocab_size);
            let known = declares_text(metadata, architecture, "qwen2"@);
            let long = |key: Seq<char>| exists|number: int|
                number >= 0x1_0000_0000 && #[trigger] declares(metadata, key, number);
            &&& !(metadata.contains_key(architecture) && metadata[architecture] is String)
                ==> result == misses(architecture)
            &&& metadata.contains_key(architecture) && metadata[architecture] is String && !known
                ==> result is Err && result->Err_0.0 == IngestionErrorKind::UnsupportedFormat
            &&& known && declares_no_number(metadata, hidden) ==> result == misses(hidden)
            &&& known && !declares_no_number(metadata, hidden) && declares_no_number(
                metadata,
                intermediate,
            ) ==> result == misses(intermediate)
            &&& known && !declares_no_number(metadata, hidden) && !declares_no_number(
                metadata,
                intermediate,
            ) && declares_no_number(metadata, layers) ==> result == misses(layers)
            &&& known && !declares_no_number(metadata, hidden) && !declares_no_number(
                metadata,
                intermediate,
            ) && !declares_no_number(metadata, layers) && !long(layers) && declares_no_number(
                metadata,
                heads,
            ) ==> result == misses(heads)
            &&& known && result is Err ==> result->Err_0.0 == IngestionErrorKind::MalformedMetadata
        }),
{
    assert("GGUF metadata is missing required key '"@ + "general.architecture"@ + "'"@
        =~= "GGUF metadata is missing required key 'general.architecture'"@) by {
        reveal_strlit("GGUF metadata is missing required key '");
        reveal_strlit("general.architecture");
        reveal_strlit("'");
        reveal_strlit("GGUF metadata is missing required key 'general.architecture'");
    }
    if let Some(number) = uint_at(metadata, "qwen2.block_count"@) {
        assert(declares(metadata, "qwen2.block_count"@, number as int));
    }
}

/// The refusal of metadata that lacks a key.
pub open spec fn misses(key: Seq<char>) -> Result<ModelArchitectureConfig, ErrorView> {
    Err(
        (
            IngestionErrorKind::MalformedMetadata,
            "GGUF metadata is missing required key '"@ + key + "'"@,
        ),
    )
}

/// A refusal of metadata as malformed.
pub open spec fn malformed_parameters(text: Seq<char>) -> Result<ModelArchitectureConfig, ErrorView> {
    Err((IngestionErrorKind::MalformedMetadata, text))
}

/// A file of another architecture is refused with its name.
pub proof fn other_architectures_are_cited(
    metadata: MetadataView,
    vocab_size: u64,
    architecture: Seq<char>,
)
    requires
        declares_text(metadata, "general.architecture"@, architecture),
        architecture != "qwen2"@,
    ensures
        normalized(metadata, vocab_size) == Err::<ModelArchitectureConfig, _>(
            (
                IngestionErrorKind::UnsupportedFormat,
                "GGUF declares architecture '"@ + architecture
                    + "'; only 'qwen2' has a real production Model Component today"@,
            ),
        ),
{
    assert("'; only 'qwen2' has a real production Model Component today"@ =~= "'; only '"@
        + "qwen2"@ + "' has a real production Model Component today"@) by {
        reveal_strlit("'; only 'qwen2' has a real production Model Component today");
        reveal_strlit("'; only '");
        reveal_strlit("qwen2");
        reveal_strlit("' has a real production Model Component today");
    }
    assert("GGUF declares architecture '"@ + architecture + "'; only '"@ + "qwen2"@
        + "' has a real production Model Component today"@ =~= "GGUF declares architecture '"@
        + architecture + "'; only 'qwen2' has a real production Model Component today"@);
}

/// How counts are refused, given that they are all declared: one that does not fit in 32 bits
/// under its key, and heads that do not divide evenly with both their numbers.
#[verifier::rlimit(50)]
pub proof fn refused_counts_are_cited(
    metadata: MetadataView,
    vocab_size: u64,
    hidden: u64,
    intermediate: u64,
    layers: u64,
    heads: u64,
    key_value_heads: u64,
)
    requires
        declares_text(metadata, "general.architecture"@, "qwen2"@),
        declares(metadata, "qwen2.embedding_length"@, hidden as int),
        declares(metadata, "qwen2.feed_forward_length"@, intermediate as int),
        declares(metadata, "qwen2.block_count"@, layers as int),
        declares(metadata, "qwen2.attention.head_count"@, heads as int),
        declares(metadata, "qwen2.attention.head_count_kv"@, key_value_heads as int) || (
        declares_no_number(metadata, "qwen2.attention.head_count_kv"@) && key_value_heads == heads),
    ensures
        ({
            let result = normalized(metadata, vocab_size);
            let max: int = 0xFFFF_FFFF;
            let fit = layers <= max && heads <= max && key_value_heads <= max;
            let sized = fit && hidden != 0 && intermediate != 0 && vocab_size != 0;
            let counted = sized && layers != 0 && heads != 0 && key_value_heads != 0;
            let even = counted && heads % key_value_heads == 0;
            &&& layers > max ==> result == malformed_parameters(
                "GGUF metadata's '"@ + "qwen2.block_count"@ + "' does not fit in a u32"@,
            )
            &&& layers <= max && heads > max ==> result == malformed_parameters(
                "GGUF metadata's '"@ + "qwen2.attention.head_count"@ + "' does not fit in a u32"@,
            )
            &&& layers <= max && heads <= max && key_value_heads > max ==> result == malformed_parameters(
                "GGUF metadata's '"@ + "qwen2.attention.head_count_kv"@
                    + "' does not fit in a u32"@,
            )
            &&& fit && !sized ==> result == malformed_parameters(
                "GGUF metadata/tensor inventory declares a zero-valued hidden_size/intermediate_size/vocab_size"@,
            )
            &&& sized && !counted ==> result == malformed_parameters(
                "GGUF metadata declares a zero-valued layer/head count"@,
            )
            &&& counted && !even ==> result == malformed_parameters(
                "GGUF metadata's qwen2.attention.head_count ("@ + decimal_text(heads as nat)
                    + ") is not an exact multiple of head_count_kv ("@ + decimal_text(
                    key_value_heads as nat,
                ) + ")"@,
            )
            &&& even && declares(metadata, "qwen2.attention.key_length"@, 0) ==> result
                == malformed_parameters("GGUF metadata's head_dim (declared or derived) is zero"@)
            &&& even && declares_no_number(metadata, "qwen2.attention.key_length"@) && hidden
                % heads != 0 ==> result == malformed_parameters(
                "GGUF metadata declares no qwen2.attention.key_length and embedding_length ("@
                    + decimal_text(hidden as nat)
                    + ") is not evenly divisible by attention.head_count ("@ + decimal_text(
                    heads as nat,
                ) + ")"@,
            )
        }),
{
}

} // verus!
