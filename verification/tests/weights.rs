use gguf_loader::error::ProductionIngestionError;
use gguf_loader::metadata::GgufMetadataValue;
use gguf_loader::model::{
    ModelDType, ModelDigest, ModelQuantization, ModelQuantizationFormat, ModelTensorMetadata,
    ProductionPayloadRange,
};
use gguf_loader::name_map::NameMap;
use gguf_loader::payload::{PayloadEvent, PayloadRead};
use gguf_loader::weights::{
    discover_and_parse_weights, ArtifactLoad, GgufArtifact, GgufPayloadSource, TensorSource,
};

const DATA_START: u64 = 96;

fn tensor(name: &str, dimensions: Vec<u64>, dtype: ModelDType, offset: u64, size: u64) -> ModelTensorMetadata {
    ModelTensorMetadata {
        name: name.to_string(),
        shape: dimensions,
        storage_dtype: dtype,
        layout: None,
        shard: None,
        offset_bytes: Some(offset),
        size_bytes: Some(size),
        quantization: None,
        expected_compute_dtype: None,
        digest: None,
    }
}

fn load(tensors: Vec<ModelTensorMetadata>) -> ArtifactLoad {
    ArtifactLoad::Parsed(GgufArtifact {
        tensors,
        metadata: NameMap::new(),
        tensor_data_start: DATA_START,
    })
}

fn range(identity: &str, offset: u64, length: u64) -> ProductionPayloadRange {
    ProductionPayloadRange {
        identity: identity.to_string(),
        offset,
        length,
        digest: None,
    }
}

fn own_range(tensor: &ModelTensorMetadata) -> ProductionPayloadRange {
    range(
        &tensor.name,
        tensor.offset_bytes.unwrap(),
        tensor.size_bytes.unwrap(),
    )
}

/// Does what a read asks for, on a file held in memory.
fn run(read: PayloadRead, file: &[u8]) -> Result<Vec<u8>, ProductionIngestionError> {
    let mut read = read;
    let mut position = 0usize;
    loop {
        let event = match &read {
            PayloadRead::Open(_) => PayloadEvent::Done,
            PayloadRead::Seek { start, .. } => {
                position = *start as usize;
                PayloadEvent::Done
            }
            PayloadRead::Load { length, .. } => {
                if position + length <= file.len() {
                    PayloadEvent::Loaded(file[position..position + length].to_vec())
                } else {
                    PayloadEvent::Failed("failed to fill whole buffer".to_string())
                }
            }
            PayloadRead::Verify { request, raw } => {
                let sum: u64 = raw.iter().map(|byte| u64::from(*byte)).sum();
                if request.digest.as_ref().unwrap().value == format!("sum:{sum}") {
                    PayloadEvent::Done
                } else {
                    PayloadEvent::Failed("digest mismatch".to_string())
                }
            }
            PayloadRead::Finished(_) => break,
        };
        read = read.advance(event);
    }
    match read {
        PayloadRead::Finished(result) => result,
        _ => unreachable!(),
    }
}

fn file_with(data: &[u8]) -> Vec<u8> {
    let mut file = vec![0xEE; DATA_START as usize];
    file.extend_from_slice(data);
    file
}

fn f32_values(bytes: &[u8]) -> Vec<f32> {
    bytes
        .chunks_exact(4)
        .map(|chunk| f32::from_le_bytes(chunk.try_into().unwrap()))
        .collect()
}

fn q8_block() -> Vec<u8> {
    let mut block = Vec::with_capacity(34);
    block.extend_from_slice(&0x3C00u16.to_le_bytes()); // d = 1.0
    block.extend((1i8..=32).map(|value| value as u8)); // qs = 1..=32
    block
}

fn reason(load: ArtifactLoad) -> String {
    match discover_and_parse_weights(load).unwrap_err() {
        ProductionIngestionError::MalformedMetadata { reason } => reason,
        other => panic!("{other:?}"),
    }
}

fn source_of(tensors: Vec<ModelTensorMetadata>) -> GgufPayloadSource {
    discover_and_parse_weights(load(tensors)).unwrap().1
}

#[test]
fn discovers_and_reads_a_gguf_file() {
    let mut metadata = NameMap::new();
    metadata.insert(
        "general.name".to_string(),
        GgufMetadataValue::String("test-model".to_string()),
    );
    let mut data = vec![0u8; 4 * 2 * 4];
    for value in [1.0f32, 2.0, 3.0, 4.0] {
        data.extend_from_slice(&value.to_le_bytes());
    }
    let load = ArtifactLoad::Parsed(GgufArtifact {
        tensors: vec![
            tensor("blk.0.attn_q.weight", vec![2, 2], ModelDType::F32, 32, 16),
            tensor("token_embd.weight", vec![4, 2], ModelDType::F32, 0, 32),
        ],
        metadata,
        tensor_data_start: DATA_START,
    });
    let (tensors, payload_source, metadata) = discover_and_parse_weights(load).unwrap();
    assert_eq!(tensors.len(), 2);
    assert!(matches!(
        metadata.get("general.name"),
        Some(GgufMetadataValue::String(name)) if name == "test-model"
    ));

    let embedding = tensors.iter().find(|t| t.name == "token_embedding").unwrap();
    // GGUF's ne order [4, 2] must be reversed to PyTorch row-major [2, 4].
    assert_eq!(embedding.shape, vec![2, 4]);

    let q_proj = tensors
        .iter()
        .find(|t| t.name == "layers.0.self_attn.q_proj")
        .unwrap();
    let bytes = run(
        payload_source.read_payload(&own_range(q_proj)),
        &file_with(&data),
    )
    .unwrap();
    assert_eq!(f32_values(&bytes), vec![1.0, 2.0, 3.0, 4.0]);
}

#[test]
fn rejects_missing_gguf_file() {
    let error = discover_and_parse_weights(ArtifactLoad::Unresolved).unwrap_err();
    assert!(matches!(
        error,
        ProductionIngestionError::RequiredPartMissing { .. }
    ));
}

#[test]
fn dequantizes_a_q8_0_tensor_and_overrides_its_declared_dtype() {
    let mut packed = tensor("blk.0.attn_q.weight", vec![32], ModelDType::Q8, 0, 34);
    packed.quantization = Some(ModelQuantization {
        format: ModelQuantizationFormat::GgufQ8,
        group_size: None,
        block_size: Some(32),
        scale_dtype: Some(ModelDType::F16),
        zero_point_dtype: None,
        per_channel: false,
        workspace_bytes: None,
    });
    let (tensors, payload_source, _metadata) =
        discover_and_parse_weights(load(vec![packed])).unwrap();
    let tensor = tensors
        .iter()
        .find(|t| t.name == "layers.0.self_attn.q_proj")
        .unwrap();
    assert_eq!(tensor.storage_dtype, ModelDType::F32);
    assert_eq!(tensor.size_bytes, Some(32 * 4));
    assert!(tensor.quantization.is_none());

    let bytes = run(
        payload_source.read_payload(&own_range(tensor)),
        &file_with(&q8_block()),
    )
    .unwrap();
    let expected: Vec<f32> = (1..=32).map(|value| value as f32).collect();
    assert_eq!(f32_values(&bytes), expected);
}

#[test]
fn load_failures_say_what_is_missing() {
    match discover_and_parse_weights(ArtifactLoad::Unresolved).unwrap_err() {
        ProductionIngestionError::RequiredPartMissing { part } => assert_eq!(part, "model.gguf"),
        other => panic!("{other:?}"),
    }
    match discover_and_parse_weights(ArtifactLoad::Unreadable {
        path: "/m/model.gguf".to_string(),
        error: "denied".to_string(),
    })
    .unwrap_err()
    {
        ProductionIngestionError::RequiredPartMissing { part } => {
            assert_eq!(part, "/m/model.gguf (denied)")
        }
        other => panic!("{other:?}"),
    }
    assert_eq!(
        reason(ArtifactLoad::Unparsable {
            error: "bad magic".to_string()
        }),
        "model.gguf failed to parse as GGUF: bad magic"
    );
}

#[test]
fn tensors_that_cannot_be_placed_are_refused() {
    let mut unplaced = tensor("output.weight", vec![2], ModelDType::F32, 0, 8);
    unplaced.size_bytes = None;
    assert_eq!(
        reason(load(vec![unplaced])),
        "tensor 'output.weight' has no declared byte range"
    );
    assert_eq!(
        reason(load(vec![tensor("output.weight", vec![33], ModelDType::Q8, 0, 34)])),
        "tensor 'output.weight' element count 33 is not a multiple of its quantization format's \
         block size 32"
    );
    assert_eq!(
        reason(load(vec![tensor("output.weight", vec![32, 4], ModelDType::Q5K, 0, 176)])),
        "tensor 'output.weight' element count 128 is not a multiple of its quantization format's \
         block size 256"
    );
    assert_eq!(
        reason(load(vec![tensor(
            "output.weight",
            vec![1 << 32, 1 << 32],
            ModelDType::Q4K,
            0,
            144
        )])),
        "tensor element count overflowed"
    );
    assert_eq!(
        reason(load(vec![tensor(
            "output.weight",
            vec![1 << 31, 1 << 31],
            ModelDType::Q4K,
            0,
            144
        )])),
        "tensor 'output.weight' dequantized byte size overflowed"
    );
    assert_eq!(
        reason(load(vec![tensor("mystery", vec![2], ModelDType::F32, 0, 8)])),
        "tensor 'mystery' does not end in '.weight' or '.bias'"
    );
}

#[test]
fn only_declared_ranges_are_served() {
    let source = source_of(vec![tensor("output.weight", vec![2], ModelDType::F32, 64, 8)]);
    for refused in [
        range("lm_head", 64, 7),
        range("lm_head", 63, 8),
        range("output.weight", 64, 8),
    ] {
        match run(source.read_payload(&refused), &[]).unwrap_err() {
            ProductionIngestionError::PayloadOutOfBounds { identity } => {
                assert_eq!(identity, refused.identity)
            }
            other => panic!("{other:?}"),
        }
    }
    match source.read_payload(&range("lm_head", 64, 8)) {
        PayloadRead::Open(request) => {
            assert_eq!(request.location.source, TensorSource::Plain);
            assert_eq!(request.location.file_length, 8);
        }
        other => panic!("{other:?}"),
    }
}

#[test]
fn the_stored_length_of_a_packed_tensor_is_refused() {
    let source = source_of(vec![tensor("output.weight", vec![32], ModelDType::Q8, 0, 34)]);
    let file = file_with(&q8_block());
    assert!(matches!(
        run(source.read_payload(&range("lm_head", 0, 34)), &file),
        Err(ProductionIngestionError::PayloadOutOfBounds { .. })
    ));
    let whole = run(source.read_payload(&range("lm_head", 0, 128)), &file).unwrap();
    assert_eq!(whole.len(), 128);
}

#[test]
fn steps_that_fail_end_the_read() {
    let source = source_of(vec![tensor("output.weight", vec![2], ModelDType::F32, 64, 8)]);
    let wanted = range("lm_head", 64, 8);
    let unavailable = |result: PayloadRead| match result {
        PayloadRead::Finished(Err(ProductionIngestionError::PayloadUnavailable { identity })) => {
            identity
        }
        other => panic!("{other:?}"),
    };
    let failed = || PayloadEvent::Failed("gone".to_string());
    let open = source.read_payload(&wanted);
    assert_eq!(unavailable(open.advance(failed())), "lm_head: gone");
    let seek = source.read_payload(&wanted).advance(PayloadEvent::Done);
    assert!(matches!(seek, PayloadRead::Seek { start: 160, .. }));
    assert_eq!(unavailable(seek.advance(failed())), "lm_head: gone");
    let load = source
        .read_payload(&wanted)
        .advance(PayloadEvent::Done)
        .advance(PayloadEvent::Done);
    assert!(matches!(load, PayloadRead::Load { length: 8, .. }));
    assert_eq!(unavailable(load.advance(failed())), "lm_head: gone");
    assert_eq!(
        unavailable(PayloadRead::Finished(run(
            source.read_payload(&wanted),
            &file_with(&[0; 71])
        ))),
        "lm_head: failed to fill whole buffer"
    );
}

#[test]
fn places_past_the_end_of_all_files_are_refused() {
    let source = source_of(vec![tensor(
        "output.weight",
        vec![2],
        ModelDType::F32,
        u64::MAX - 95,
        8,
    )]);
    let read = source
        .read_payload(&range("lm_head", u64::MAX - 95, 8))
        .advance(PayloadEvent::Done);
    assert!(matches!(
        read,
        PayloadRead::Finished(Err(ProductionIngestionError::PayloadOutOfBounds { .. }))
    ));
}

#[test]
fn digests_are_checked_before_unpacking() {
    let source = source_of(vec![tensor("output.weight", vec![32], ModelDType::Q8, 0, 34)]);
    let block = q8_block();
    let sum: u64 = block.iter().map(|byte| u64::from(*byte)).sum();
    let with_digest = |value: String| ProductionPayloadRange {
        identity: "lm_head".to_string(),
        offset: 0,
        length: 128,
        digest: Some(ModelDigest {
            algorithm: "sum".to_string(),
            value,
        }),
    };
    let file = file_with(&block);
    let bytes = run(source.read_payload(&with_digest(format!("sum:{sum}"))), &file).unwrap();
    assert_eq!(bytes.len(), 128);
    match run(source.read_payload(&with_digest("sum:0".to_string())), &file).unwrap_err() {
        ProductionIngestionError::IntegrityMismatch { identity } => {
            assert_eq!(identity, "lm_head: digest mismatch")
        }
        other => panic!("{other:?}"),
    }
}

#[test]
fn events_that_answer_another_step_change_nothing() {
    let source = source_of(vec![tensor("output.weight", vec![2], ModelDType::F32, 0, 8)]);
    let read = source
        .read_payload(&range("lm_head", 0, 8))
        .advance(PayloadEvent::Loaded(vec![1]));
    assert!(matches!(read, PayloadRead::Open(_)));
    let done = PayloadRead::Finished(Ok(vec![5])).advance(PayloadEvent::Failed("x".to_string()));
    assert!(matches!(done, PayloadRead::Finished(Ok(bytes)) if bytes == vec![5]));
}

#[test]
fn plain_tensors_keep_what_they_declare() {
    let mut plain = tensor("blk.2.ffn_norm.weight", vec![2, 3, 4], ModelDType::Bf16, 7, 48);
    plain.digest = Some(ModelDigest {
        algorithm: "sha256".to_string(),
        value: "sha256:ab".to_string(),
    });
    let (tensors, _, _) = discover_and_parse_weights(load(vec![plain])).unwrap();
    assert_eq!(tensors[0].name, "layers.2.post_attn_norm");
    assert_eq!(tensors[0].shape, vec![4, 3, 2]);
    assert_eq!(tensors[0].storage_dtype, ModelDType::Bf16);
    assert_eq!(tensors[0].size_bytes, Some(48));
    assert_eq!(tensors[0].digest.as_ref().unwrap().value, "sha256:ab");
}
