use gguf_loader::derived_lm_head::{append_synthetic_lm_head_if_tied, DerivedLmHeadPayloadSource};
use gguf_loader::error::ProductionIngestionError;
use gguf_loader::ingestor::{
    sanitize_model_name, FileReading, PreparedIngestion, ProductionIngestionResult,
};
use gguf_loader::listing::list_weights;
use gguf_loader::metadata::{GgufMetadata, GgufMetadataValue};
use gguf_loader::model::{
    ArtifactFormat, ModelArtifactKind, ModelDType, ModelDigest, ModelTensorMetadata,
    ProductionPayloadRange,
};
use gguf_loader::name_map::NameMap;
use gguf_loader::payload::{PayloadEvent, PayloadRead};
use gguf_loader::pipeline::IngestedPayloadSource;
use gguf_loader::token_metadata::SpecialTokenKind;
use gguf_loader::tokenizer::DescriptionOutcome;
use gguf_loader::weights::{ArtifactLoad, GgufArtifact};
use gguf_loader::{
    load_gguf_chat_template, load_gguf_tokenizer, GgufIngestor, GgufTokenizer, INGESTOR_ID,
};

fn kv_string(metadata: &mut GgufMetadata, key: &str, value: &str) {
    metadata.insert(key.to_string(), GgufMetadataValue::String(value.to_string()));
}
fn kv_uint32(metadata: &mut GgufMetadata, key: &str, value: u32) {
    metadata.insert(key.to_string(), GgufMetadataValue::UInt32(value));
}
fn kv_float32(metadata: &mut GgufMetadata, key: &str, value: f32) {
    metadata.insert(key.to_string(), GgufMetadataValue::Float32(value.to_bits()));
}
fn kv_string_array(metadata: &mut GgufMetadata, key: &str, values: &[&str]) {
    metadata.insert(
        key.to_string(),
        GgufMetadataValue::Array(
            values
                .iter()
                .map(|value| GgufMetadataValue::String(value.to_string()))
                .collect(),
        ),
    );
}

struct TestTensor {
    name: &'static str,
    dimensions: Vec<u64>,
    dtype: ModelDType,
    data: Vec<u8>,
}

fn plain(name: &'static str, dimensions: Vec<u64>, values: &[f32]) -> TestTensor {
    TestTensor {
        name,
        dimensions,
        dtype: ModelDType::F32,
        data: f32_bytes(values),
    }
}

fn f32_bytes(values: &[f32]) -> Vec<u8> {
    values.iter().flat_map(|v| v.to_le_bytes()).collect()
}

fn f32_values(bytes: &[u8]) -> Vec<f32> {
    bytes
        .chunks_exact(4)
        .map(|chunk| f32::from_le_bytes(chunk.try_into().unwrap()))
        .collect()
}

/// A file in memory, and what a parser makes of it: tensors in the order of their names.
fn build_gguf(metadata: GgufMetadata, tensors: Vec<TestTensor>, alignment: u64) -> (GgufArtifact, Vec<u8>) {
    let tensor_data_start = 3 * alignment;
    let mut file = vec![0u8; tensor_data_start as usize];
    let mut described = Vec::new();
    for tensor in tensors {
        while file.len() as u64 % alignment != 0 {
            file.push(0);
        }
        let plain = tensor.dtype == ModelDType::F32;
        described.push(ModelTensorMetadata {
            name: tensor.name.to_string(),
            shape: tensor.dimensions,
            storage_dtype: tensor.dtype,
            layout: None,
            shard: None,
            offset_bytes: Some(file.len() as u64 - tensor_data_start),
            size_bytes: Some(tensor.data.len() as u64),
            quantization: None,
            expected_compute_dtype: None,
            digest: if plain { Some(digest("stored")) } else { None },
        });
        file.extend(tensor.data);
    }
    described.sort_by(|left, right| left.name.cmp(&right.name));
    (
        GgufArtifact {
            tensors: described,
            metadata,
            tensor_data_start,
        },
        file,
    )
}

fn digest(value: &str) -> ModelDigest {
    ModelDigest {
        algorithm: "sha256".to_string(),
        value: value.to_string(),
    }
}

fn tiny_metadata() -> GgufMetadata {
    let mut kvs = NameMap::new();
    kv_string(&mut kvs, "general.architecture", "qwen2");
    kv_string(&mut kvs, "general.name", "tiny-qwen2-test");
    kv_uint32(&mut kvs, "qwen2.embedding_length", 2);
    kv_uint32(&mut kvs, "qwen2.feed_forward_length", 4);
    kv_uint32(&mut kvs, "qwen2.block_count", 1);
    kv_uint32(&mut kvs, "qwen2.attention.head_count", 1);
    kv_uint32(&mut kvs, "qwen2.attention.head_count_kv", 1);
    kv_float32(&mut kvs, "qwen2.attention.layer_norm_rms_epsilon", 1e-6);
    kv_float32(&mut kvs, "qwen2.rope.freq_base", 10_000.0);
    kv_uint32(&mut kvs, "tokenizer.ggml.bos_token_id", 0);
    kv_uint32(&mut kvs, "tokenizer.ggml.eos_token_id", 1);
    kv_string(&mut kvs, "tokenizer.ggml.model", "gpt2");
    kv_string_array(
        &mut kvs,
        "tokenizer.ggml.tokens",
        &["<bos>", "<eos>", "hello", "world"],
    );
    kv_string_array(&mut kvs, "tokenizer.ggml.merges", &[]);
    kvs
}

fn tiny_tensors() -> Vec<TestTensor> {
    let token_embd: Vec<f32> = (0..8).map(|i| i as f32).collect();
    let square_2x2 = vec![1.0f32, 2.0, 3.0, 4.0];
    let ffn_in2_out4: Vec<f32> = (0..8).map(|i| i as f32 + 1.0).collect();
    let ffn_in4_out2: Vec<f32> = (0..8).map(|i| i as f32 + 1.0).collect();
    let norm = vec![1.0f32, 1.0];
    vec![
        plain("token_embd.weight", vec![2, 4], &token_embd),
        plain("blk.0.attn_norm.weight", vec![2], &norm),
        plain("blk.0.attn_q.weight", vec![2, 2], &square_2x2),
        plain("blk.0.attn_k.weight", vec![2, 2], &square_2x2),
        plain("blk.0.attn_v.weight", vec![2, 2], &square_2x2),
        plain("blk.0.attn_output.weight", vec![2, 2], &square_2x2),
        plain("blk.0.ffn_norm.weight", vec![2], &norm),
        plain("blk.0.ffn_gate.weight", vec![2, 4], &ffn_in2_out4),
        plain("blk.0.ffn_up.weight", vec![2, 4], &ffn_in2_out4),
        plain("blk.0.ffn_down.weight", vec![4, 2], &ffn_in4_out2),
        plain("output_norm.weight", vec![2], &norm),
    ]
}

fn tiny_qwen2_gguf() -> (GgufArtifact, Vec<u8>) {
    build_gguf(tiny_metadata(), tiny_tensors(), 32)
}

fn ingest(artifact: GgufArtifact) -> PreparedIngestion {
    GgufIngestor::new()
        .ingest(ArtifactLoad::Parsed(artifact))
        .expect("bundle ingests")
}

fn complete(prepared: PreparedIngestion) -> ProductionIngestionResult<&'static str> {
    let template = prepared.chat_template.as_ref().map(|_| digest("template"));
    prepared
        .complete(
            FileReading::Read {
                digest: digest("file"),
                length: 1234,
            },
            digest("weights"),
            template,
            "here",
        )
        .expect("bundle completes")
}

fn named<'a>(tensors: &'a [ModelTensorMetadata], name: &str) -> &'a ModelTensorMetadata {
    tensors.iter().find(|tensor| tensor.name == name).unwrap()
}

fn range_of(tensor: &ModelTensorMetadata) -> ProductionPayloadRange {
    ProductionPayloadRange {
        identity: tensor.name.clone(),
        offset: tensor.offset_bytes.unwrap(),
        length: tensor.size_bytes.unwrap(),
        digest: None,
    }
}

/// Does what a read asks for, on a file held in memory.
fn read(
    source: &IngestedPayloadSource,
    range: &ProductionPayloadRange,
    file: &[u8],
) -> Result<Vec<u8>, ProductionIngestionError> {
    let mut read = source.begin(range);
    let mut position = 0usize;
    loop {
        let event = match &read {
            PayloadRead::Open(_) => PayloadEvent::Done,
            PayloadRead::Seek { start, .. } => {
                position = *start as usize;
                PayloadEvent::Done
            }
            PayloadRead::Load { length, .. } => {
                PayloadEvent::Loaded(file[position..position + length].to_vec())
            }
            PayloadRead::Verify { .. } => PayloadEvent::Done,
            PayloadRead::Finished(_) => break,
        };
        read = read.advance(event);
    }
    match read {
        PayloadRead::Finished(payload) => source.finish(&range.identity, payload),
        _ => unreachable!(),
    }
}

#[test]
fn ingests_a_complete_tiny_gguf_file() {
    let (artifact, _) = tiny_qwen2_gguf();
    let result = complete(ingest(artifact));

    assert!(result.manifest.architecture_config.is_some());
    let config = result.manifest.architecture_config.unwrap();
    assert_eq!(config.hidden_size, 2);
    assert_eq!(config.intermediate_size, 4);
    assert_eq!(config.num_hidden_layers, 1);
    assert_eq!(config.vocab_size, 4);
    assert!(
        config.tie_word_embeddings,
        "no output.weight tensor was declared, so this must be inferred tied"
    );
    assert!(
        !config.attention_bias,
        "no *_bias tensors were declared, so this must default to false"
    );

    assert!(result.manifest.signatures.is_empty());
    assert!(result.manifest.provenance.is_none());

    let lm_head = result
        .manifest
        .tensors
        .iter()
        .find(|tensor| tensor.name == "lm_head")
        .expect("a synthetic lm_head tensor was derived from token_embedding");
    assert_eq!(
        lm_head.shape,
        vec![2, 4],
        "hidden x vocab, as the Component expects"
    );
}

#[test]
fn load_gguf_tokenizer_and_chat_template_read_the_real_file() {
    let tokenizer = match load_gguf_tokenizer(
        ArtifactLoad::Parsed(tiny_qwen2_gguf().0),
        "test-tokenizer".to_string(),
        Some(4),
    )
    .and_then(|prepared| prepared.complete(DescriptionOutcome::Valid))
    {
        Ok(tokenizer) => tokenizer,
        Err(error) => panic!("tokenizer builds from the real embedded GGUF vocabulary: {error:?}"),
    };
    assert_eq!(
        tokenizer.metadata().vocabulary_size,
        4,
        "the tokenizer's real vocabulary size must match this fixture's real \
         tokenizer.ggml.tokens array (<bos>, <eos>, hello, world), threaded through \
         load_gguf_tokenizer unchanged"
    );
    let chat_template = load_gguf_chat_template(ArtifactLoad::Parsed(tiny_qwen2_gguf().0))
        .expect("chat template lookup succeeds even when the key is absent");
    assert_eq!(
        chat_template, None,
        "this fixture declares no tokenizer.chat_template key"
    );
}

#[test]
fn transposes_a_non_square_mlp_projection_correctly() {
    let (artifact, file) = tiny_qwen2_gguf();
    let result = complete(ingest(artifact));
    let gate_proj = named(&result.manifest.tensors, "layers.0.mlp.gate_proj");
    // GGUF ne=[in=2, out=4] reversed to HF-native [out=4, in=2], then
    // swapped back to the Component's expected [in=2, out=4].
    assert_eq!(gate_proj.shape, vec![2, 4]);

    let bytes = read(&result.payload_source, &range_of(gate_proj), &file).unwrap();
    // The transpose (out,in)->(in,out) of the 4x2 matrix [[1,2],[3,4],[5,6],[7,8]]
    // is the 2x4 matrix [[1,3,5,7],[2,4,6,8]].
    assert_eq!(f32_values(&bytes), vec![1.0, 3.0, 5.0, 7.0, 2.0, 4.0, 6.0, 8.0]);
}

#[test]
fn dequantizes_then_transposes_a_non_square_quantized_projection() {
    const HIDDEN: u64 = 4;
    const INTERMEDIATE: u64 = 8;
    let mut kvs = NameMap::new();
    kv_string(&mut kvs, "general.architecture", "qwen2");
    kv_uint32(&mut kvs, "qwen2.embedding_length", HIDDEN as u32);
    kv_uint32(&mut kvs, "qwen2.feed_forward_length", INTERMEDIATE as u32);
    kv_uint32(&mut kvs, "qwen2.block_count", 1);
    kv_uint32(&mut kvs, "qwen2.attention.head_count", 2);
    kv_uint32(&mut kvs, "qwen2.attention.head_count_kv", 2);
    kv_uint32(&mut kvs, "tokenizer.ggml.bos_token_id", 0);
    kv_uint32(&mut kvs, "tokenizer.ggml.eos_token_id", 1);
    kv_string(&mut kvs, "tokenizer.ggml.model", "gpt2");
    kv_string_array(&mut kvs, "tokenizer.ggml.tokens", &["<bos>", "<eos>", "hi", "lo"]);
    kv_string_array(&mut kvs, "tokenizer.ggml.merges", &[]);

    let norm = vec![1.0f32; HIDDEN as usize];
    let square = vec![1.0f32; (HIDDEN * HIDDEN) as usize];
    let ffn_up_down = vec![1.0f32; (HIDDEN * INTERMEDIATE) as usize];
    let token_embd = vec![1.0f32; (HIDDEN * 4) as usize];

    // One real Q8_0 block: d = 1.0, qs = 1..=32 (GGUF ne=[in=4,
    // out=8] -- 32 elements, exactly one block).
    let mut ffn_gate_q8 = Vec::with_capacity(34);
    ffn_gate_q8.extend_from_slice(&0x3C00u16.to_le_bytes()); // d = 1.0
    ffn_gate_q8.extend((1i8..=32).map(|value| value as u8));

    let tensors = vec![
        plain("token_embd.weight", vec![HIDDEN, 4], &token_embd),
        plain("blk.0.attn_norm.weight", vec![HIDDEN], &norm),
        plain("blk.0.attn_q.weight", vec![HIDDEN, HIDDEN], &square),
        plain("blk.0.attn_k.weight", vec![HIDDEN, HIDDEN], &square),
        plain("blk.0.attn_v.weight", vec![HIDDEN, HIDDEN], &square),
        plain("blk.0.attn_output.weight", vec![HIDDEN, HIDDEN], &square),
        plain("blk.0.ffn_norm.weight", vec![HIDDEN], &norm),
        // The one quantized, non-square tensor under test.
        TestTensor {
            name: "blk.0.ffn_gate.weight",
            dimensions: vec![HIDDEN, INTERMEDIATE],
            dtype: ModelDType::Q8,
            data: ffn_gate_q8,
        },
        plain("blk.0.ffn_up.weight", vec![HIDDEN, INTERMEDIATE], &ffn_up_down),
        plain("blk.0.ffn_down.weight", vec![INTERMEDIATE, HIDDEN], &ffn_up_down),
        plain("output_norm.weight", vec![HIDDEN], &norm),
    ];
    let (artifact, file) = build_gguf(kvs, tensors, 32);
    let result = complete(ingest(artifact));

    let ffn_gate = named(&result.manifest.tensors, "layers.0.mlp.gate_proj");
    assert_eq!(
        ffn_gate.storage_dtype,
        ModelDType::F32,
        "a dequantized tensor's declared storage dtype must be overridden to F32"
    );
    assert!(ffn_gate.quantization.is_none());
    // GGUF ne=[in=4, out=8] reversed to HF-native [out=8, in=4], then
    // swapped back to the Component's expected [in=4, out=8].
    assert_eq!(ffn_gate.shape, vec![HIDDEN, INTERMEDIATE]);

    let bytes = read(&result.payload_source, &range_of(ffn_gate), &file).unwrap();
    let expected = vec![
        1.0, 5.0, 9.0, 13.0, 17.0, 21.0, 25.0, 29.0, //
        2.0, 6.0, 10.0, 14.0, 18.0, 22.0, 26.0, 30.0, //
        3.0, 7.0, 11.0, 15.0, 19.0, 23.0, 27.0, 31.0, //
        4.0, 8.0, 12.0, 16.0, 20.0, 24.0, 28.0, 32.0,
    ];
    assert_eq!(f32_values(&bytes), expected);
}

#[test]
fn loads_a_real_tokenizer_from_embedded_vocabulary() {
    let tokenizer = match GgufTokenizer::from_gguf_metadata(
        &tiny_metadata(),
        "tiny-qwen2-test".to_string(),
        Some(4),
    )
    .and_then(|prepared| prepared.complete(DescriptionOutcome::Valid))
    {
        Ok(tokenizer) => tokenizer,
        Err(error) => panic!("real tokenizer builds from embedded vocabulary: {error:?}"),
    };
    assert_eq!(tokenizer.metadata().vocabulary_size, 4);
    assert!(tokenizer
        .metadata()
        .special_token(SpecialTokenKind::Bos)
        .is_some());
}

#[test]
fn rejects_a_non_qwen2_architecture_end_to_end() {
    let mut kvs = NameMap::new();
    kv_string(&mut kvs, "general.architecture", "llama");
    let (artifact, _) = build_gguf(
        kvs,
        vec![plain("token_embd.weight", vec![2, 4], &[0.0; 8])],
        32,
    );
    let error = match GgufIngestor::new().ingest(ArtifactLoad::Parsed(artifact)) {
        Err(error) => error,
        Ok(_) => panic!("expected an unsupported-format error"),
    };
    assert!(matches!(
        error,
        ProductionIngestionError::UnsupportedFormat { .. }
    ));
}

#[test]
fn rejects_a_missing_gguf_file() {
    let error = match GgufIngestor::new().ingest(ArtifactLoad::Unresolved) {
        Err(error) => error,
        Ok(_) => panic!("expected a required-part-missing error"),
    };
    assert!(matches!(
        error,
        ProductionIngestionError::RequiredPartMissing { .. }
    ));
}

#[test]
fn ingestor_id_is_stable() {
    assert_eq!(GgufIngestor::new().ingestor_id(), INGESTOR_ID);
}

#[test]
fn every_tensor_of_a_model_can_be_read() {
    let (artifact, file) = tiny_qwen2_gguf();
    let result = complete(ingest(artifact));
    assert_eq!(result.manifest.tensors.len(), 12);
    for tensor in &result.manifest.tensors {
        let bytes = read(&result.payload_source, &range_of(tensor), &file).unwrap();
        assert_eq!(bytes.len() as u64, tensor.size_bytes.unwrap(), "{}", tensor.name);
    }
}

#[test]
fn a_tied_head_is_the_embedding_transposed() {
    let (artifact, file) = tiny_qwen2_gguf();
    let result = complete(ingest(artifact));
    let head = result.manifest.tensors.last().unwrap();
    assert_eq!(head.name, "lm_head");
    assert!(head.digest.is_none());
    let bytes = read(&result.payload_source, &range_of(head), &file).unwrap();
    assert_eq!(f32_values(&bytes), vec![0.0, 2.0, 4.0, 6.0, 1.0, 3.0, 5.0, 7.0]);
    let embedding = named(&result.manifest.tensors, "token_embedding");
    let bytes = read(&result.payload_source, &range_of(embedding), &file).unwrap();
    assert_eq!(f32_values(&bytes), (0..8).map(|i| i as f32).collect::<Vec<f32>>());

    let mut elsewhere = range_of(head);
    elsewhere.offset += 1;
    match read(&result.payload_source, &elsewhere, &file).unwrap_err() {
        ProductionIngestionError::PayloadOutOfBounds { identity } => assert_eq!(identity, "lm_head"),
        other => panic!("{other:?}"),
    }
}

#[test]
fn a_stored_head_is_used() {
    let mut tensors = tiny_tensors();
    tensors.push(plain("output.weight", vec![2, 4], &[9.0, 8.0, 7.0, 6.0, 5.0, 4.0, 3.0, 2.0]));
    tensors.push(plain("blk.0.attn_q.bias", vec![2], &[0.5, 0.25]));
    let (artifact, file) = build_gguf(tiny_metadata(), tensors, 32);
    let prepared = ingest(artifact);
    assert!(!prepared.architecture_config.tie_word_embeddings);
    assert!(prepared.architecture_config.attention_bias);
    assert!(matches!(prepared.payload_source, IngestedPayloadSource::Stored(_)));
    let head = named(&prepared.tensors, "lm_head");
    assert_eq!(head.shape, vec![2, 4]);
    let bytes = read(&prepared.payload_source, &range_of(head), &file).unwrap();
    assert_eq!(f32_values(&bytes), vec![9.0, 7.0, 5.0, 3.0, 8.0, 6.0, 4.0, 2.0]);
    let bias = named(&prepared.tensors, "layers.0.self_attn.q_bias");
    assert!(bias.digest.is_some());
    let bytes = read(&prepared.payload_source, &range_of(bias), &file).unwrap();
    assert_eq!(f32_values(&bytes), vec![0.5, 0.25]);
}

fn attention_bias_with(name: &'static str) -> bool {
    let mut tensors = tiny_tensors();
    tensors.push(plain(name, vec![2], &[0.5, 0.25]));
    let (artifact, _) = build_gguf(tiny_metadata(), tensors, 32);
    ingest(artifact).architecture_config.attention_bias
}

#[test]
fn a_bias_of_the_queries_alone_is_an_attention_bias() {
    assert!(attention_bias_with("blk.0.attn_q.bias"));
}

#[test]
fn a_bias_of_the_keys_alone_is_an_attention_bias() {
    assert!(attention_bias_with("blk.0.attn_k.bias"));
}

#[test]
fn a_bias_of_the_values_alone_is_an_attention_bias() {
    assert!(attention_bias_with("blk.0.attn_v.bias"));
}

#[test]
fn other_tensors_are_no_attention_bias() {
    assert!(!attention_bias_with("blk.1.attn_norm.weight"));
}

#[test]
fn manifests_have_their_parts() {
    let mut metadata = tiny_metadata();
    kv_string(&mut metadata, "tokenizer.chat_template", "{{ h\u{e9} }}");
    let (artifact, _) = build_gguf(metadata, tiny_tensors(), 32);
    let prepared = ingest(artifact);
    assert_eq!(prepared.chat_template.as_deref(), Some("{{ h\u{e9} }}"));
    let manifest = complete(prepared).manifest;
    assert_eq!(manifest.schema_version, 1);
    assert_eq!(manifest.id.kind, ModelArtifactKind::ModelBundle);
    assert_eq!(manifest.id.name, "gguf-tiny-qwen2-test");
    assert_eq!(manifest.id.revision, "local");
    assert_eq!(manifest.id.digest.value, "file");
    assert_eq!(manifest.architecture.family, "qwen");
    assert_eq!(manifest.architecture.identifier, "qwen2");
    assert_eq!(manifest.artifact_format, ArtifactFormat::Gguf);
    assert_eq!(manifest.storage_dtype, Some(ModelDType::F32));
    assert_eq!(manifest.supported_compute_dtypes, vec![ModelDType::F32]);
    assert_eq!(manifest.source, Some("here"));
    assert!(manifest.signatures.is_empty());
    assert!(manifest.provenance.is_none());
    assert_eq!(manifest.chat_template.as_deref(), Some("chat_template"));
    let config = manifest.parts.get("gguf_metadata").unwrap();
    assert_eq!(config.kind, ModelArtifactKind::ModelConfig);
    assert_eq!(config.digest.value, "file");
    assert_eq!(config.size_bytes, Some(1234));
    assert!(config.required);
    let weights = manifest.parts.get("weights").unwrap();
    assert_eq!(weights.kind, ModelArtifactKind::ModelWeights);
    assert_eq!(weights.digest.value, "weights");
    assert_eq!(weights.size_bytes, None);
    assert!(weights.required);
    let template = manifest.parts.get("chat_template").unwrap();
    assert_eq!(template.kind, ModelArtifactKind::ChatTemplate);
    assert_eq!(template.digest.value, "template");
    assert_eq!(template.size_bytes, Some(9));
    assert!(!template.required);

    let manifest = complete(ingest(tiny_qwen2_gguf().0)).manifest;
    assert!(manifest.chat_template.is_none());
    assert!(manifest.parts.get("chat_template").is_none());
}

#[test]
fn a_file_that_went_away_is_reported() {
    let reading = |file| {
        ingest(tiny_qwen2_gguf().0)
            .complete(file, digest("weights"), None, ())
            .unwrap_err()
    };
    match reading(FileReading::Unreadable {
        error: "gone".to_string(),
    }) {
        ProductionIngestionError::RequiredPartMissing { part } => {
            assert_eq!(part, "model.gguf (gone)")
        }
        other => panic!("{other:?}"),
    }
    match reading(FileReading::Unresolved(
        ProductionIngestionError::UnauthorizedSource {
            reason: "moved".to_string(),
        },
    )) {
        ProductionIngestionError::UnauthorizedSource { reason } => assert_eq!(reason, "moved"),
        other => panic!("{other:?}"),
    }
}

fn reason(artifact: GgufArtifact) -> String {
    match GgufIngestor::new()
        .ingest(ArtifactLoad::Parsed(artifact))
        .unwrap_err()
    {
        ProductionIngestionError::MalformedMetadata { reason } => reason,
        other => panic!("{other:?}"),
    }
}

#[test]
fn refusals_to_ingest_say_why() {
    assert_eq!(
        reason(build_gguf(tiny_metadata(), Vec::new(), 32).0),
        "no tensors were discovered in this GGUF file"
    );
    let norm = vec![plain("output_norm.weight", vec![2], &[1.0, 1.0])];
    assert_eq!(
        reason(build_gguf(tiny_metadata(), norm, 32).0),
        "no token_embedding tensor was discovered"
    );
    let scalar = vec![plain("token_embd.weight", Vec::new(), &[1.0])];
    assert_eq!(
        reason(build_gguf(tiny_metadata(), scalar, 32).0),
        "no token_embedding tensor was discovered"
    );
    let flat = vec![plain("token_embd.weight", vec![4], &[1.0; 4])];
    assert_eq!(
        reason(build_gguf(tiny_metadata(), flat, 32).0),
        "token_embedding is missing the offset/size/shape metadata needed to derive a tied lm_head"
    );
}

#[test]
fn model_names_become_identities() {
    assert_eq!(sanitize_model_name("Qwen2.5 0.5B/Instruct"), "gguf-Qwen2.5-0.5B-Instruct");
    assert_eq!(sanitize_model_name(""), "gguf-bundle");
    assert_eq!(sanitize_model_name("\u{e9}_x"), "gguf--_x");
    for name in ["", " ", "a/b", "\u{1F600}"] {
        let name = sanitize_model_name(name);
        assert!(!name.is_empty());
        assert!(name
            .chars()
            .all(|ch| ch.is_ascii_alphanumeric() || matches!(ch, '.' | '-' | '_')));
    }
    let mut metadata = tiny_metadata();
    metadata.remove("general.name");
    let (artifact, _) = build_gguf(metadata, tiny_tensors(), 32);
    assert_eq!(ingest(artifact).name, "gguf-qwen2");
}

#[test]
fn chat_templates_are_loaded() {
    let mut metadata = tiny_metadata();
    kv_string(&mut metadata, "tokenizer.chat_template", "{{ messages }}");
    let (artifact, _) = build_gguf(metadata, Vec::new(), 32);
    assert_eq!(
        load_gguf_chat_template(ArtifactLoad::Parsed(artifact)).unwrap(),
        Some("{{ messages }}".to_string())
    );
    assert!(load_gguf_chat_template(ArtifactLoad::Unresolved).is_err());
    let mut metadata = tiny_metadata();
    kv_uint32(&mut metadata, "tokenizer.chat_template", 3);
    let (artifact, _) = build_gguf(metadata, Vec::new(), 32);
    assert_eq!(
        load_gguf_chat_template(ArtifactLoad::Parsed(artifact)).unwrap(),
        None
    );
}

fn entry(name: &str, shape: Vec<u64>, offset: Option<u64>, size: Option<u64>) -> ModelTensorMetadata {
    ModelTensorMetadata {
        name: name.to_string(),
        shape,
        storage_dtype: ModelDType::F32,
        layout: None,
        shard: None,
        offset_bytes: offset,
        size_bytes: size,
        quantization: None,
        expected_compute_dtype: None,
        digest: None,
    }
}

#[test]
fn listings_are_sorted_and_say_what_there_is() {
    let a = || entry("layers.10.x", vec![4, 2], Some(0), Some(32));
    let b = || entry("layers.2.x", Vec::new(), None, Some(7));
    let c = || entry("layers.10", vec![5], Some(64), None);
    let expected = "layers.10.x:[4, 2]:Some(0):Some(32)\nlayers.10:[5]:Some(64):None\n\
                    layers.2.x:[]:None:Some(7)";
    assert_eq!(list_weights(&vec![a(), b(), c()]), expected);
    assert_eq!(list_weights(&vec![c(), b(), a()]), expected);
    assert_eq!(list_weights(&Vec::new()), "");
    let mut debug: Vec<String> = [a(), b(), c()]
        .iter()
        .map(|t| format!("{}:{:?}:{:?}:{:?}", t.name, t.shape, t.offset_bytes, t.size_bytes))
        .collect();
    debug.sort();
    assert_eq!(list_weights(&vec![a(), b(), c()]), debug.join("\n"));
}

#[test]
fn heads_are_appended_only_where_tied() {
    let embedding = || entry("token_embedding", vec![4, 2], Some(8), Some(32));
    let mut tensors = vec![embedding()];
    assert!(!append_synthetic_lm_head_if_tied(&mut tensors, false));
    assert_eq!(tensors.len(), 1);
    assert!(append_synthetic_lm_head_if_tied(&mut tensors, true));
    assert_eq!(tensors[1].name, "lm_head");
    assert_eq!(tensors[1].shape, vec![2, 4]);
    assert_eq!(tensors[1].offset_bytes, Some(8));
    let mut none = vec![entry("final_norm", vec![2], Some(0), Some(8))];
    assert!(!append_synthetic_lm_head_if_tied(&mut none, true));
    assert_eq!(none.len(), 1);

    assert!(DerivedLmHeadPayloadSource::new((), &embedding()).is_some());
    for incomplete in [
        entry("token_embedding", vec![4], Some(8), Some(32)),
        entry("token_embedding", vec![4, 2], None, Some(32)),
        entry("token_embedding", vec![4, 2], Some(8), None),
    ] {
        assert!(DerivedLmHeadPayloadSource::new((), &incomplete).is_none());
    }
    let source = DerivedLmHeadPayloadSource::new((), &embedding()).unwrap();
    let asked = source
        .inner_range(&ProductionPayloadRange {
            identity: "lm_head".to_string(),
            offset: 8,
            length: 32,
            digest: Some(digest("d")),
        })
        .unwrap();
    assert_eq!(asked.identity, "token_embedding");
    assert_eq!(asked.digest.unwrap().value, "d");
    assert!(source.read_payload("lm_head", Ok(vec![0; 31])).is_err());
    assert_eq!(source.read_payload("final_norm", Ok(vec![3; 5])).unwrap(), vec![3; 5]);
}
