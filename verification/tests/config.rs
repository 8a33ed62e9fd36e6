use gguf_loader::config::{normalize, DEFAULT_RMS_NORM_EPS, DEFAULT_ROPE_THETA};
use gguf_loader::error::ProductionIngestionError;
use gguf_loader::metadata::{GgufMetadata, GgufMetadataValue};
use gguf_loader::model::ModelArchitectureConfig;
use gguf_loader::name_map::NameMap;
use gguf_loader::SUPPORTED_ARCHITECTURE;

fn qwen2_0_5b_metadata() -> GgufMetadata {
    let mut metadata = NameMap::new();
    metadata.insert(
        "general.architecture".to_string(),
        GgufMetadataValue::String("qwen2".to_string()),
    );
    metadata.insert(
        "qwen2.embedding_length".to_string(),
        GgufMetadataValue::UInt32(896),
    );
    metadata.insert(
        "qwen2.feed_forward_length".to_string(),
        GgufMetadataValue::UInt32(4864),
    );
    metadata.insert("qwen2.block_count".to_string(), GgufMetadataValue::UInt32(24));
    metadata.insert(
        "qwen2.attention.head_count".to_string(),
        GgufMetadataValue::UInt32(14),
    );
    metadata.insert(
        "qwen2.attention.head_count_kv".to_string(),
        GgufMetadataValue::UInt32(2),
    );
    metadata.insert(
        "qwen2.attention.layer_norm_rms_epsilon".to_string(),
        GgufMetadataValue::Float32(1e-6f32.to_bits()),
    );
    metadata.insert(
        "qwen2.rope.freq_base".to_string(),
        GgufMetadataValue::Float32(1_000_000.0f32.to_bits()),
    );
    metadata.insert(
        "tokenizer.ggml.bos_token_id".to_string(),
        GgufMetadataValue::UInt32(151643),
    );
    metadata.insert(
        "tokenizer.ggml.eos_token_id".to_string(),
        GgufMetadataValue::UInt32(151645),
    );
    metadata
}

fn set(metadata: &mut GgufMetadata, key: &str, value: GgufMetadataValue) {
    metadata.insert(key.to_string(), value);
}

fn refusal(metadata: &GgufMetadata, vocab_size: u64) -> String {
    match normalize(metadata, vocab_size).unwrap_err() {
        ProductionIngestionError::MalformedMetadata { reason } => reason,
        other => panic!("{other:?}"),
    }
}

fn with(key: &str, value: GgufMetadataValue) -> Result<ModelArchitectureConfig, ProductionIngestionError> {
    let mut metadata = qwen2_0_5b_metadata();
    set(&mut metadata, key, value);
    normalize(&metadata, 151936)
}

#[test]
fn normalizes_a_real_qwen2_gguf_metadata_set() {
    let config = normalize(&qwen2_0_5b_metadata(), 151936).expect("valid metadata normalizes");
    assert_eq!(config.hidden_size, 896);
    assert_eq!(config.num_hidden_layers, 24);
    assert_eq!(config.num_attention_heads, 14);
    assert_eq!(config.num_key_value_heads, 2);
    assert_eq!(config.head_dim, 64, "head_dim must be derived: 896 / 14");
    assert_eq!(config.vocab_size, 151936);
    assert_eq!(config.bos_token_id, Some(151643));
    assert_eq!(config.eos_token_id, Some(151645));
}

#[test]
fn rejects_a_non_qwen2_architecture() {
    let mut metadata = qwen2_0_5b_metadata();
    metadata.insert(
        "general.architecture".to_string(),
        GgufMetadataValue::String("llama".to_string()),
    );
    let error = normalize(&metadata, 151936).unwrap_err();
    assert!(matches!(
        error,
        ProductionIngestionError::UnsupportedFormat { .. }
    ));
}

#[test]
fn rejects_missing_required_key() {
    let mut metadata = qwen2_0_5b_metadata();
    metadata.remove("qwen2.embedding_length");
    let error = normalize(&metadata, 151936).unwrap_err();
    assert!(matches!(
        error,
        ProductionIngestionError::MalformedMetadata { .. }
    ));
}

#[test]
fn rejects_invalid_head_kv_relationship() {
    let mut metadata = qwen2_0_5b_metadata();
    metadata.insert(
        "qwen2.attention.head_count_kv".to_string(),
        GgufMetadataValue::UInt32(3), // 14 % 3 != 0
    );
    let error = normalize(&metadata, 151936).unwrap_err();
    assert!(matches!(
        error,
        ProductionIngestionError::MalformedMetadata { .. }
    ));
}

#[test]
fn rejects_zero_vocab_size() {
    let error = normalize(&qwen2_0_5b_metadata(), 0).unwrap_err();
    assert!(matches!(
        error,
        ProductionIngestionError::MalformedMetadata { .. }
    ));
}

#[test]
fn derives_head_dim_only_when_evenly_divisible() {
    let mut metadata = qwen2_0_5b_metadata();
    metadata.insert(
        "qwen2.embedding_length".to_string(),
        GgufMetadataValue::UInt32(897), // not divisible by 14
    );
    let error = normalize(&metadata, 151936).unwrap_err();
    assert!(matches!(
        error,
        ProductionIngestionError::MalformedMetadata { .. }
    ));
}

#[test]
fn honors_an_explicit_key_length_over_the_derived_value() {
    let mut metadata = qwen2_0_5b_metadata();
    metadata.insert(
        "qwen2.attention.key_length".to_string(),
        GgufMetadataValue::UInt32(128),
    );
    let config = normalize(&metadata, 151936).unwrap();
    assert_eq!(config.head_dim, 128);
}

#[test]
fn fractions_keep_their_values() {
    let config = normalize(&qwen2_0_5b_metadata(), 151936).unwrap();
    assert_eq!(f32::from_bits(config.rms_norm_eps), 1e-6f32);
    assert_eq!(f64::from_bits(config.rope_theta), 1_000_000.0);
    assert_eq!(config.rope_scaling_factor, None);
    let config = with(
        "qwen2.rope.scaling.factor",
        GgufMetadataValue::Float64(0.1f64.to_bits()),
    )
    .unwrap();
    assert_eq!(config.rope_scaling_factor, Some(0.1f32.to_bits()));
}

#[test]
fn defaults_stand_in_for_missing_fractions() {
    assert_eq!(f64::from_bits(DEFAULT_RMS_NORM_EPS), 1e-6);
    assert_eq!(f64::from_bits(DEFAULT_ROPE_THETA), 10_000.0);
    let mut metadata = qwen2_0_5b_metadata();
    metadata.remove("qwen2.attention.layer_norm_rms_epsilon");
    metadata.remove("qwen2.rope.freq_base");
    metadata.remove("qwen2.attention.head_count_kv");
    let config = normalize(&metadata, 1).unwrap();
    assert_eq!(config.rms_norm_eps, (1e-6f64 as f32).to_bits());
    assert_eq!(f64::from_bits(config.rope_theta), 10_000.0);
    assert_eq!(config.num_key_value_heads, 14);
    assert!(!config.tie_word_embeddings);
    assert!(!config.attention_bias);
}

#[test]
fn base_frequency_must_be_positive() {
    for bits in [
        (-1.0f64).to_bits(),
        0.0f64.to_bits(),
        (-0.0f64).to_bits(),
        f64::NEG_INFINITY.to_bits(),
    ] {
        let mut metadata = qwen2_0_5b_metadata();
        set(&mut metadata, "qwen2.rope.freq_base", GgufMetadataValue::Float64(bits));
        assert_eq!(
            refusal(&metadata, 1),
            "GGUF metadata's qwen2.rope.freq_base must be positive"
        );
    }
    assert!(with("qwen2.rope.freq_base", GgufMetadataValue::Float64(f64::NAN.to_bits())).is_ok());
    assert!(with("qwen2.rope.freq_base", GgufMetadataValue::Float32(1u32)).is_ok());
    assert!(with("qwen2.rope.freq_base", GgufMetadataValue::Float32(0x8000_0000)).is_err());
}

#[test]
fn counts_may_be_wide_but_not_signed() {
    let config = with("qwen2.block_count", GgufMetadataValue::UInt64(5)).unwrap();
    assert_eq!(config.num_hidden_layers, 5);
    assert!(with("qwen2.block_count", GgufMetadataValue::Int32(5)).is_err());
    let config = with(
        "tokenizer.ggml.bos_token_id",
        GgufMetadataValue::UInt64(0x1_0000_0000),
    )
    .unwrap();
    assert_eq!(config.bos_token_id, None);
}

#[test]
fn refusals_say_what_is_wrong() {
    assert_eq!(
        refusal(&NameMap::new(), 1),
        "GGUF metadata is missing required key 'general.architecture'"
    );
    let mut metadata = qwen2_0_5b_metadata();
    set(
        &mut metadata,
        "general.architecture",
        GgufMetadataValue::String("llama".to_string()),
    );
    match normalize(&metadata, 1).unwrap_err() {
        ProductionIngestionError::UnsupportedFormat { reason } => assert_eq!(
            reason,
            format!(
                "GGUF declares architecture 'llama'; only '{SUPPORTED_ARCHITECTURE}' has a real \
                 production Model Component today"
            )
        ),
        other => panic!("{other:?}"),
    }
    let mut metadata = qwen2_0_5b_metadata();
    metadata.remove("qwen2.feed_forward_length");
    assert_eq!(
        refusal(&metadata, 1),
        "GGUF metadata is missing required key 'qwen2.feed_forward_length'"
    );
    let mut metadata = qwen2_0_5b_metadata();
    set(
        &mut metadata,
        "qwen2.attention.head_count",
        GgufMetadataValue::UInt64(0x1_0000_0000),
    );
    assert_eq!(
        refusal(&metadata, 1),
        "GGUF metadata's 'qwen2.attention.head_count' does not fit in a u32"
    );
    assert_eq!(
        refusal(&qwen2_0_5b_metadata(), 0),
        "GGUF metadata/tensor inventory declares a zero-valued hidden_size/intermediate_size/\
         vocab_size"
    );
    let mut metadata = qwen2_0_5b_metadata();
    set(&mut metadata, "qwen2.block_count", GgufMetadataValue::UInt32(0));
    assert_eq!(
        refusal(&metadata, 1),
        "GGUF metadata declares a zero-valued layer/head count"
    );
    let mut metadata = qwen2_0_5b_metadata();
    set(
        &mut metadata,
        "qwen2.attention.head_count_kv",
        GgufMetadataValue::UInt32(3),
    );
    assert_eq!(
        refusal(&metadata, 1),
        "GGUF metadata's qwen2.attention.head_count (14) is not an exact multiple of \
         head_count_kv (3)"
    );
    let mut metadata = qwen2_0_5b_metadata();
    set(&mut metadata, "qwen2.embedding_length", GgufMetadataValue::UInt32(897));
    assert_eq!(
        refusal(&metadata, 1),
        "GGUF metadata declares no qwen2.attention.key_length and embedding_length (897) is not \
         evenly divisible by attention.head_count (14)"
    );
    let mut metadata = qwen2_0_5b_metadata();
    set(&mut metadata, "qwen2.attention.key_length", GgufMetadataValue::UInt32(0));
    assert_eq!(
        refusal(&metadata, 1),
        "GGUF metadata's head_dim (declared or derived) is zero"
    );
    let mut metadata = qwen2_0_5b_metadata();
    set(
        &mut metadata,
        "qwen2.attention.key_length",
        GgufMetadataValue::UInt64(u64::MAX),
    );
    assert_eq!(
        refusal(&metadata, 1),
        "GGUF metadata produced an inconsistent architecture config: model artifact size \
         overflows u64"
    );
}
