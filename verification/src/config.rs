//! The architecture's parameters, out of a GGUF file's metadata.
//!
//! One architecture is supported, `qwen2`; a file that declares another is
//! refused. The keys are those that GGUF files of Qwen2 models carry.

use vstd::prelude::*;
use vstd::string::StringExecFns;

use crate::error::{malformed, malformed_view, plain_outcome, unsupported_view};
use crate::error::{ErrorView, ProductionIngestionError};
use crate::float::{at_most_zero, is_at_most_zero, narrow, narrowed};
use crate::metadata::{float_at, string_at, uint_at};
use crate::metadata::{float_value, string_value, uint_value, GgufMetadata, MetadataView};
use crate::model::{is_consistent, ModelArchitectureConfig};
use crate::text::{decimal, decimal_text, same_text};

verus! {

/// The architecture that is supported.
pub const SUPPORTED_ARCHITECTURE: &'static str = "qwen2";

/// 0.000001 in double precision, the epsilon where none is declared.
pub const DEFAULT_RMS_NORM_EPS: u64 = 0x3EB0_C6F7_A0B5_ED8D;

/// 10000 in double precision, the base frequency where none is declared.
pub const DEFAULT_ROPE_THETA: u64 = 0x40C3_8800_0000_0000;

/// The counts that metadata declares.
#[derive(Clone, Copy, Debug, PartialEq, Eq, Structural)]
pub struct DeclaredCounts {
    pub hidden_size: u64,
    pub intermediate_size: u64,
    pub num_hidden_layers: u32,
    pub num_attention_heads: u32,
    pub num_key_value_heads: u32,
}

/// The count under a key that must be there.
pub open spec fn required_uint_at(metadata: MetadataView, key: Seq<char>) -> Result<
    u64,
    ErrorView,
> {
    match uint_at(metadata, key) {
        Some(value) => Ok(value),
        None => Err(malformed_view("GGUF metadata is missing required key '"@ + key + "'"@)),
    }
}

/// A count that must fit in 32 bits, or the refusal that cites its key.
pub open spec fn short_count(value: u64, key: Seq<char>) -> Result<u32, ErrorView> {
    if value <= u32::MAX {
        Ok(value as u32)
    } else {
        Err(malformed_view("GGUF metadata's '"@ + key + "' does not fit in a u32"@))
    }
}

/// The count under a key that must be there and fit in 32 bits.
pub open spec fn required_short_at(metadata: MetadataView, key: Seq<char>) -> Result<
    u32,
    ErrorView,
> {
    match required_uint_at(metadata, key) {
        Ok(value) => short_count(value, key),
        Err(error) => Err(error),
    }
}

/// The number of key-value heads: as many as attention heads unless declared.
pub open spec fn key_value_heads_at(metadata: MetadataView, attention_heads: u32) -> Result<
    u32,
    ErrorView,
> {
    let key = "qwen2.attention.head_count_kv"@;
    match uint_at(metadata, key) {
        Some(value) => short_count(value, key),
        None => Ok(attention_heads),
    }
}

/// The counts that metadata declares, or the first one that is missing or too
/// large.
pub open spec fn declared_counts(metadata: MetadataView) -> Result<DeclaredCounts, ErrorView> {
    match required_uint_at(metadata, "qwen2.embedding_length"@) {
        Err(error) => Err(error),
        Ok(hidden_size) => match required_uint_at(metadata, "qwen2.feed_forward_length"@) {
            Err(error) => Err(error),
            Ok(intermediate_size) => match required_short_at(metadata, "qwen2.block_count"@) {
                Err(error) => Err(error),
                Ok(num_hidden_layers) => match required_short_at(
                    metadata,
                    "qwen2.attention.head_count"@,
                ) {
                    Err(error) => Err(error),
                    Ok(num_attention_heads) => match key_value_heads_at(
                        metadata,
                        num_attention_heads,
                    ) {
                        Err(error) => Err(error),
                        Ok(num_key_value_heads) => Ok(
                            DeclaredCounts {
                                hidden_size,
                                intermediate_size,
                                num_hidden_layers,
                                num_attention_heads,
                                num_key_value_heads,
                            },
                        ),
                    },
                },
            },
        },
    }
}

/// Why counts cannot be those of a model, where they cannot.
pub open spec fn count_defect(counts: DeclaredCounts, vocab_size: u64) -> Option<ErrorView> {
    if counts.hidden_size == 0 || counts.intermediate_size == 0 || vocab_size == 0 {
        Some(
            malformed_view(
                "GGUF metadata/tensor inventory declares a zero-valued hidden_size/intermediate_size/vocab_size"@,
            ),
        )
    } else if counts.num_hidden_layers == 0 || counts.num_attention_heads == 0
        || counts.num_key_value_heads == 0 {
        Some(malformed_view("GGUF metadata declares a zero-valued layer/head count"@))
    } else if counts.num_attention_heads % counts.num_key_value_heads != 0 {
        Some(
            malformed_view(
                "GGUF metadata's qwen2.attention.head_count ("@ + decimal_text(
                    counts.num_attention_heads as nat,
                ) + ") is not an exact multiple of head_count_kv ("@ + decimal_text(
                    counts.num_key_value_heads as nat,
                ) + ")"@,
            ),
        )
    } else {
        None
    }
}

/// The width of one head: as declared, or an even share of the hidden size.
pub open spec fn head_width(metadata: MetadataView, counts: DeclaredCounts) -> Result<
    u64,
    ErrorView,
> {
    match uint_at(metadata, "qwen2.attention.key_length"@) {
        Some(declared) => if declared == 0 {
            Err(malformed_view("GGUF metadata's head_dim (declared or derived) is zero"@))
        } else {
            Ok(declared)
        },
        None => if counts.hidden_size % counts.num_attention_heads as u64 != 0 {
            Err(
                malformed_view(
                    "GGUF metadata declares no qwen2.attention.key_length and embedding_length ("@
                        + decimal_text(counts.hidden_size as nat)
                        + ") is not evenly divisible by attention.head_count ("@ + decimal_text(
                        counts.num_attention_heads as nat,
                    ) + ")"@,
                ),
            )
        } else {
            Ok((counts.hidden_size / counts.num_attention_heads as u64) as u64)
        },
    }
}

/// The identifier under a key, where one stands there that fits in 32 bits.
pub open spec fn token_id_at(metadata: MetadataView, key: Seq<char>) -> Option<u32> {
    match uint_at(metadata, key) {
        Some(value) => if value <= u32::MAX {
            Some(value as u32)
        } else {
            None
        },
        None => None,
    }
}

/// The fraction under a key in double precision, or a default.
pub open spec fn float_or(metadata: MetadataView, key: Seq<char>, default: u64) -> u64 {
    match float_at(metadata, key) {
        Some(bits) => bits,
        None => default,
    }
}

/// The fraction under a key in single precision, where one stands there.
pub open spec fn narrowed_float_at(metadata: MetadataView, key: Seq<char>) -> Option<u32> {
    match float_at(metadata, key) {
        Some(bits) => Some(narrowed(bits)),
        None => None,
    }
}

/// The parameters that sound counts and the rest of the metadata amount to.
pub open spec fn assembled(
    metadata: MetadataView,
    counts: DeclaredCounts,
    vocab_size: u64,
    head_dim: u64,
) -> ModelArchitectureConfig {
    ModelArchitectureConfig {
        hidden_size: counts.hidden_size,
        intermediate_size: counts.intermediate_size,
        num_hidden_layers: counts.num_hidden_layers,
        num_attention_heads: counts.num_attention_heads,
        num_key_value_heads: counts.num_key_value_heads,
        head_dim,
        vocab_size,
        rms_norm_eps: narrowed(
            float_or(metadata, "qwen2.attention.layer_norm_rms_epsilon"@, DEFAULT_RMS_NORM_EPS),
        ),
        rope_theta: float_or(metadata, "qwen2.rope.freq_base"@, DEFAULT_ROPE_THETA),
        rope_scaling_factor: narrowed_float_at(metadata, "qwen2.rope.scaling.factor"@),
        tie_word_embeddings: false,
        attention_bias: false,
        bos_token_id: token_id_at(metadata, "tokenizer.ggml.bos_token_id"@),
        eos_token_id: token_id_at(metadata, "tokenizer.ggml.eos_token_id"@),
    }
}

/// The parameters of a model whose counts are known, or why it has none.
pub open spec fn normalized_with(
    metadata: MetadataView,
    counts: DeclaredCounts,
    vocab_size: u64,
) -> Result<ModelArchitectureConfig, ErrorView> {
    match count_defect(counts, vocab_size) {
        Some(error) => Err(error),
        None => match head_width(metadata, counts) {
            Err(error) => Err(error),
            Ok(head_dim) => {
                let config = assembled(metadata, counts, vocab_size, head_dim);
                if at_most_zero(config.rope_theta) {
                    Err(malformed_view("GGUF metadata's qwen2.rope.freq_base must be positive"@))
                } else if head_dim * counts.num_attention_heads > u64::MAX {
                    Err(
                        malformed_view(
                            "GGUF metadata produced an inconsistent architecture config: model artifact size overflows u64"@,
                        ),
                    )
                } else {
                    Ok(config)
                }
            },
        },
    }
}

/// The parameters that metadata and an embedding table of `vocab_size` rows
/// declare, or why they declare none.
pub open spec fn normalized(metadata: MetadataView, vocab_size: u64) -> Result<
    ModelArchitectureConfig,
    ErrorView,
> {
    match string_at(metadata, "general.architecture"@) {
        None => Err(
            malformed_view("GGUF metadata is missing required key 'general.architecture'"@),
        ),
        Some(architecture) => if architecture != SUPPORTED_ARCHITECTURE@ {
            Err(
                unsupported_view(
                    "GGUF declares architecture '"@ + architecture + "'; only '"@
                        + SUPPORTED_ARCHITECTURE@
                        + "' has a real production Model Component today"@,
                ),
            )
        } else {
            match declared_counts(metadata) {
                Err(error) => Err(error),
                Ok(counts) => normalized_with(metadata, counts, vocab_size),
            }
        },
    }
}

fn required_uint(metadata: &GgufMetadata, key: &str) -> (count: Result<
    u64,
    ProductionIngestionError,
>)
    ensures
        plain_outcome(count) == required_uint_at(metadata@, key@),
{
    match uint_value(metadata, key) {
        Some(value) => Ok(value),
        None => {
            let mut reason: String = String::from_str("GGUF metadata is missing required key '");
            reason.append(key);
            reason.append("'");
            Err(malformed(reason))
        },
    }
}

fn shorten(value: u64, key: &str) -> (count: Result<u32, ProductionIngestionError>)
    ensures
        plain_outcome(count) == short_count(value, key@),
{
    if value <= u32::MAX as u64 {
        Ok(value as u32)
    } else {
        let mut reason: String = String::from_str("GGUF metadata's '");
        reason.append(key);
        reason.append("' does not fit in a u32");
        Err(malformed(reason))
    }
}

fn required_short(metadata: &GgufMetadata, key: &str) -> (count: Result<
    u32,
    ProductionIngestionError,
>)
    ensures
        plain_outcome(count) == required_short_at(metadata@, key@),
{
    match required_uint(metadata, key) {
        Ok(value) => shorten(value, key),
        Err(error) => Err(error),
    }
}

fn read_counts(metadata: &GgufMetadata) -> (counts: Result<
    DeclaredCounts,
    ProductionIngestionError,
>)
    ensures
        plain_outcome(counts) == declared_counts(metadata@),
{
    let hidden_size: u64 = match required_uint(metadata, "qwen2.embedding_length") {
        Ok(value) => value,
        Err(error) => return Err(error),
    };
    let intermediate_size: u64 = match required_uint(metadata, "qwen2.feed_forward_length") {
        Ok(value) => value,
        Err(error) => return Err(error),
    };
    let num_hidden_layers: u32 = match required_short(metadata, "qwen2.block_count") {
        Ok(value) => value,
        Err(error) => return Err(error),
    };
    let num_attention_heads: u32 = match required_short(metadata, "qwen2.attention.head_count") {
        Ok(value) => value,
        Err(error) => return Err(error),
    };
    let num_key_value_heads: u32 = match uint_value(metadata, "qwen2.attention.head_count_kv") {
        Some(value) => match shorten(value, "qwen2.attention.head_count_kv") {
            Ok(value) => value,
            Err(error) => return Err(error),
        },
        None => num_attention_heads,
    };
    Ok(
        DeclaredCounts {
            hidden_size,
            intermediate_size,
            num_hidden_layers,
            num_attention_heads,
            num_key_value_heads,
        },
    )
}

fn check_counts(counts: &DeclaredCounts, vocab_size: u64) -> (defect: Option<
    ProductionIngestionError,
>)
    ensures
        defect is Some <==> count_defect(*counts, vocab_size) is Some,
        defect matches Some(error) ==> Some(error@) == count_defect(*counts, vocab_size),
{
    if counts.hidden_size == 0 || counts.intermediate_size == 0 || vocab_size == 0 {
        return Some(
            malformed(
                String::from_str(
                    "GGUF metadata/tensor inventory declares a zero-valued hidden_size/intermediate_size/vocab_size",
                ),
            ),
        );
    }
    if counts.num_hidden_layers == 0 || counts.num_attention_heads == 0
        || counts.num_key_value_heads == 0 {
        return Some(
            malformed(
                String::from_str("GGUF metadata declares a zero-valued layer/head count"),
            ),
        );
    }
    if counts.num_attention_heads % counts.num_key_value_heads != 0 {
        let mut reason: String = String::from_str(
            "GGUF metadata's qwen2.attention.head_count (",
        );
        reason.append(decimal(counts.num_attention_heads as u64).as_str());
        reason.append(") is not an exact multiple of head_count_kv (");
        reason.append(decimal(counts.num_key_value_heads as u64).as_str());
        reason.append(")");
        return Some(malformed(reason));
    }
    None
}

fn read_head_width(metadata: &GgufMetadata, counts: &DeclaredCounts) -> (width: Result<
    u64,
    ProductionIngestionError,
>)
    requires
        counts.num_attention_heads != 0,
        counts.hidden_size != 0,
    ensures
        plain_outcome(width) == head_width(metadata@, *counts),
        width matches Ok(width) ==> width != 0,
{
    match uint_value(metadata, "qwen2.attention.key_length") {
        Some(declared) => {
            if declared == 0 {
                Err(
                    malformed(
                        String::from_str("GGUF metadata's head_dim (declared or derived) is zero"),
                    ),
                )
            } else {
                Ok(declared)
            }
        },
        None => {
            let heads: u64 = counts.num_attention_heads as u64;
            if counts.hidden_size % heads != 0 {
                let mut reason: String = String::from_str(
                    "GGUF metadata declares no qwen2.attention.key_length and embedding_length (",
                );
                reason.append(decimal(counts.hidden_size).as_str());
                reason.append(") is not evenly divisible by attention.head_count (");
                reason.append(decimal(heads).as_str());
                reason.append(")");
                return Err(malformed(reason));
            }
            proof {
                lemma_even_share_is_positive(counts.hidden_size as int, heads as int);
            }
            Ok(counts.hidden_size / heads)
        },
    }
}

/// An even share of something is not nothing.
proof fn lemma_even_share_is_positive(whole: int, shares: int)
    requires
        whole > 0,
        shares > 0,
        whole % shares == 0,
    ensures
        whole / shares > 0,
{
    vstd::arithmetic::div_mod::lemma_fundamental_div_mod(whole, shares);
    assert(whole / shares > 0) by (nonlinear_arith)
        requires
            whole > 0,
            shares > 0,
            whole == shares * (whole / shares),
    ;
}

fn read_token_id(metadata: &GgufMetadata, key: &str) -> (id: Option<u32>)
    ensures
        id == token_id_at(metadata@, key@),
{
    match uint_value(metadata, key) {
        Some(value) => {
            if value <= u32::MAX as u64 {
                Some(value as u32)
            } else {
                None
            }
        },
        None => None,
    }
}

fn read_float_or(metadata: &GgufMetadata, key: &str, default: u64) -> (bits: u64)
    ensures
        bits == float_or(metadata@, key@, default),
{
    match float_value(metadata, key) {
        Some(bits) => bits,
        None => default,
    }
}

/// Turns a GGUF file's metadata into the architecture's parameters.
///
/// `vocab_size` is the number of rows of the embedding table: the tensors say how
/// large the vocabulary is, the metadata does not. Whether the attention inputs
/// carry a bias and whether the embedding is tied are for the tensors to say too:
/// both are returned `false`.
pub fn normalize(metadata: &GgufMetadata, vocab_size: u64) -> (config: Result<
    ModelArchitectureConfig,
    ProductionIngestionError,
>)
    ensures
        plain_outcome(config) == normalized(metadata@, vocab_size),
{
    match string_value(metadata, "general.architecture") {
        None => {
            return Err(
                malformed(
                    String::from_str(
                        "GGUF metadata is missing required key 'general.architecture'",
                    ),
                ),
            );
        },
        Some(architecture) => {
            if !same_text(architecture, SUPPORTED_ARCHITECTURE) {
                let mut reason: String = String::from_str("GGUF declares architecture '");
                reason.append(architecture);
                reason.append("'; only '");
                reason.append(SUPPORTED_ARCHITECTURE);
                reason.append("' has a real production Model Component today");
                return Err(ProductionIngestionError::UnsupportedFormat { reason });
            }
        },
    }
    let counts: DeclaredCounts = match read_counts(metadata) {
        Ok(counts) => counts,
        Err(error) => return Err(error),
    };
    match check_counts(&counts, vocab_size) {
        Some(error) => return Err(error),
        None => {},
    }
    let head_dim: u64 = match read_head_width(metadata, &counts) {
        Ok(width) => width,
        Err(error) => return Err(error),
    };
    let rms_norm_eps: u32 = narrow(
        read_float_or(
            metadata,
            "qwen2.attention.layer_norm_rms_epsilon",
            DEFAULT_RMS_NORM_EPS,
        ),
    );
    let rope_theta: u64 = read_float_or(metadata, "qwen2.rope.freq_base", DEFAULT_ROPE_THETA);
    if is_at_most_zero(rope_theta) {
        return Err(
            malformed(
                String::from_str("GGUF metadata's qwen2.rope.freq_base must be positive"),
            ),
        );
    }
    let rope_scaling_factor: Option<u32> = match float_value(
        metadata,
        "qwen2.rope.scaling.factor",
    ) {
        Some(bits) => Some(narrow(bits)),
        None => None,
    };
    if head_dim.checked_mul(counts.num_attention_heads as u64).is_none() {
        return Err(
            malformed(
                String::from_str(
                    "GGUF metadata produced an inconsistent architecture config: model artifact size overflows u64",
                ),
            ),
        );
    }
    Ok(
        ModelArchitectureConfig {
            hidden_size: counts.hidden_size,
            intermediate_size: counts.intermediate_size,
            num_hidden_layers: counts.num_hidden_layers,
            num_attention_heads: counts.num_attention_heads,
            num_key_value_heads: counts.num_key_value_heads,
            head_dim,
            vocab_size,
            rms_norm_eps,
            rope_theta,
            rope_scaling_factor,
            tie_word_embeddings: false,
            attention_bias: false,
            bos_token_id: read_token_id(metadata, "tokenizer.ggml.bos_token_id"),
            eos_token_id: read_token_id(metadata, "tokenizer.ggml.eos_token_id"),
        },
    )
}

/// Parameters are only ever given out where they are consistent, their base
/// frequency is not at most zero, and the file declares the architecture they are
/// for.
pub proof fn normalized_parameters_are_consistent(metadata: MetadataView, vocab_size: u64)
    ensures
        normalized(metadata, vocab_size) matches Ok(config) ==> {
            &&& is_consistent(config)
            &&& !at_most_zero(config.rope_theta)
            &&& config.vocab_size == vocab_size
            &&& string_at(metadata, "general.architecture"@) == Some(SUPPORTED_ARCHITECTURE@)
        },
{
    match declared_counts(metadata) {
        Ok(counts) => {
            if counts.hidden_size != 0 && counts.num_attention_heads != 0 && counts.hidden_size
                % counts.num_attention_heads as u64 == 0 {
                lemma_even_share_is_positive(
                    counts.hidden_size as int,
                    counts.num_attention_heads as int,
                );
            }
        },
        Err(_) => {},
    }
}

} // verus!
