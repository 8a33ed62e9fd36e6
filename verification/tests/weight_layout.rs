use gguf_loader::error::ProductionIngestionError;
use gguf_loader::model::{ModelDType, ModelDigest, ModelTensorMetadata};
use gguf_loader::transpose::transpose_bytes;
use gguf_loader::weight_layout::{
    is_transposed_projection, swap_declared_projection_shapes, TransposingPayloadSource,
};

fn tensor(name: &str, shape: Vec<u64>, dtype: ModelDType) -> ModelTensorMetadata {
    ModelTensorMetadata {
        name: name.to_string(),
        shape,
        storage_dtype: dtype,
        layout: None,
        shard: None,
        offset_bytes: Some(0),
        size_bytes: Some(0),
        quantization: None,
        expected_compute_dtype: None,
        digest: None,
    }
}

fn f32_bytes(values: &[f32]) -> Vec<u8> {
    values.iter().flat_map(|v| v.to_le_bytes()).collect()
}

fn f32_values(bytes: &[u8]) -> Vec<f32> {
    bytes
        .chunks_exact(4)
        .map(|chunk| f32::from_le_bytes(chunk.try_into().unwrap()))
        .collect()
}

fn reason(result: Result<Vec<u8>, ProductionIngestionError>) -> String {
    match result.unwrap_err() {
        ProductionIngestionError::MalformedMetadata { reason } => reason,
        other => panic!("{other:?}"),
    }
}

#[test]
fn swaps_projection_shapes_but_not_embedding_or_norms() {
    let mut tensors = vec![
        tensor("layers.0.self_attn.q_proj", vec![10, 4], ModelDType::F32),
        tensor("token_embedding", vec![100, 4], ModelDType::F32),
        tensor("layers.0.input_norm", vec![4], ModelDType::F32),
    ];
    swap_declared_projection_shapes(&mut tensors);
    assert_eq!(tensors[0].shape, vec![4, 10]);
    assert_eq!(tensors[1].shape, vec![100, 4]);
    assert_eq!(tensors[2].shape, vec![4]);
}

#[test]
fn transposes_a_non_square_projection_correctly() {
    // 2x3 (out=2, in=3): [[1,2,3],[4,5,6]]
    let raw = f32_bytes(&[1.0, 2.0, 3.0, 4.0, 5.0, 6.0]);
    let tensors = vec![tensor(
        "layers.0.mlp.gate_proj",
        vec![2, 3],
        ModelDType::F32,
    )];
    let source = TransposingPayloadSource::new((), &tensors);
    let transposed = source
        .read_payload("layers.0.mlp.gate_proj", Ok(raw))
        .unwrap();
    let values = f32_values(&transposed);
    // 3x2 transpose: [[1,4],[2,5],[3,6]]
    assert_eq!(values, vec![1.0, 4.0, 2.0, 5.0, 3.0, 6.0]);
}

#[test]
fn swapping_clears_only_the_digests_of_projections() {
    let digest = || {
        Some(ModelDigest {
            algorithm: "sha256".to_string(),
            value: "sha256:00".to_string(),
        })
    };
    let mut tensors = vec![
        tensor("lm_head", vec![3, 5], ModelDType::F16),
        tensor("layers.0.self_attn.q_proj", vec![15], ModelDType::F16),
        tensor("final_norm", vec![3], ModelDType::F16),
    ];
    for tensor in &mut tensors {
        tensor.digest = digest();
    }
    swap_declared_projection_shapes(&mut tensors);
    assert_eq!(tensors[0].shape, vec![5, 3]);
    assert!(tensors[0].digest.is_none());
    assert_eq!(tensors[1].shape, vec![15]);
    assert!(tensors[1].digest.is_some());
    assert!(tensors[2].digest.is_some());
    swap_declared_projection_shapes(&mut tensors);
    assert_eq!(tensors[0].shape, vec![3, 5]);
}

#[test]
fn projections_are_told_by_name() {
    assert!(is_transposed_projection("lm_head"));
    assert!(is_transposed_projection("layers.3.self_attn.o_proj"));
    assert!(is_transposed_projection("layers.3.mlp.down_proj"));
    assert!(!is_transposed_projection("lm_head2"));
    assert!(!is_transposed_projection("token_embedding"));
    assert!(!is_transposed_projection("final_norm"));
    assert!(!is_transposed_projection("layers.3.post_attn_norm"));
    assert!(!is_transposed_projection("layers.3.self_attn.q_bias"));
    assert!(!is_transposed_projection(""));
}

#[test]
fn other_payloads_pass_through() {
    let tensors = vec![tensor("token_embedding", vec![2, 3], ModelDType::F32)];
    let source = TransposingPayloadSource::new((), &tensors);
    let raw = vec![1, 2, 3];
    assert_eq!(source.read_payload("token_embedding", Ok(raw.clone())).unwrap(), raw);
    assert_eq!(source.read_payload("unknown", Ok(raw.clone())).unwrap(), raw);
    let error = source
        .read_payload(
            "unknown",
            Err(ProductionIngestionError::PayloadOutOfBounds {
                identity: "unknown".to_string(),
            }),
        )
        .unwrap_err();
    assert!(matches!(error, ProductionIngestionError::PayloadOutOfBounds { .. }));
}

#[test]
fn elements_keep_their_width() {
    let tensors = vec![tensor("lm_head", vec![2, 3], ModelDType::Bf16)];
    let source = TransposingPayloadSource::new((), &tensors);
    let raw = vec![10, 11, 20, 21, 30, 31, 40, 41, 50, 51, 60, 61];
    let transposed = source.read_payload("lm_head", Ok(raw.clone())).unwrap();
    assert_eq!(transposed, vec![10, 11, 40, 41, 20, 21, 50, 51, 30, 31, 60, 61]);
    assert_eq!(transpose_bytes(&transposed, 3, 2, 2), raw);
}

#[test]
fn sizes_that_do_not_match_are_refused() {
    let tensors = vec![
        tensor("lm_head", vec![2, 3], ModelDType::F32),
        tensor("layers.0.mlp.up_proj", vec![u64::MAX, 2], ModelDType::F32),
        tensor("layers.0.mlp.down_proj", vec![u64::MAX / 2, 2], ModelDType::F32),
        tensor("layers.0.mlp.gate_proj", vec![0, 7], ModelDType::F32),
    ];
    let source = TransposingPayloadSource::new((), &tensors);
    assert_eq!(
        reason(source.read_payload("lm_head", Ok(vec![0; 23]))),
        "'lm_head' byte length 23 does not match 2x3 elements at 4 bytes/element"
    );
    assert_eq!(
        reason(source.read_payload("layers.0.mlp.up_proj", Ok(vec![0; 8]))),
        "'layers.0.mlp.up_proj' element count overflows"
    );
    assert_eq!(
        reason(source.read_payload("layers.0.mlp.down_proj", Ok(vec![0; 8]))),
        "'layers.0.mlp.down_proj' byte length 8 does not match 9223372036854775807x2 elements at \
         4 bytes/element"
    );
    assert!(source
        .read_payload("layers.0.mlp.gate_proj", Ok(Vec::new()))
        .unwrap()
        .is_empty());
}
