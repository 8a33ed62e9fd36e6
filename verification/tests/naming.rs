use gguf_loader::error::ProductionIngestionError;
use gguf_loader::normalize_tensor_name;

fn reason(name: &str) -> String {
    match normalize_tensor_name(name).unwrap_err() {
        ProductionIngestionError::UnsupportedFormat { reason } => reason,
        ProductionIngestionError::MalformedMetadata { reason } => reason,
        other => panic!("{other:?}"),
    }
}

#[test]
fn normalizes_top_level_tensors() {
    assert_eq!(
        normalize_tensor_name("token_embd.weight").unwrap(),
        "token_embedding"
    );
    assert_eq!(
        normalize_tensor_name("output_norm.weight").unwrap(),
        "final_norm"
    );
    assert_eq!(normalize_tensor_name("output.weight").unwrap(), "lm_head");
}

#[test]
fn normalizes_per_layer_tensors() {
    assert_eq!(
        normalize_tensor_name("blk.0.attn_q.weight").unwrap(),
        "layers.0.self_attn.q_proj"
    );
    assert_eq!(
        normalize_tensor_name("blk.12.ffn_down.weight").unwrap(),
        "layers.12.mlp.down_proj"
    );
    assert_eq!(
        normalize_tensor_name("blk.3.attn_norm.weight").unwrap(),
        "layers.3.input_norm"
    );
    assert_eq!(
        normalize_tensor_name("blk.3.ffn_norm.weight").unwrap(),
        "layers.3.post_attn_norm"
    );
}

#[test]
fn normalizes_qkv_bias_tensors() {
    assert_eq!(
        normalize_tensor_name("blk.0.attn_q.bias").unwrap(),
        "layers.0.self_attn.q_bias"
    );
    assert_eq!(
        normalize_tensor_name("blk.0.attn_k.bias").unwrap(),
        "layers.0.self_attn.k_bias"
    );
    assert_eq!(
        normalize_tensor_name("blk.7.attn_v.bias").unwrap(),
        "layers.7.self_attn.v_bias"
    );
}

#[test]
fn rejects_bias_tensors_outside_qkv() {
    let error = normalize_tensor_name("blk.0.attn_output.bias").unwrap_err();
    assert!(matches!(
        error,
        ProductionIngestionError::UnsupportedFormat { .. }
    ));
    let error = normalize_tensor_name("blk.0.ffn_gate.bias").unwrap_err();
    assert!(matches!(
        error,
        ProductionIngestionError::UnsupportedFormat { .. }
    ));
    let error = normalize_tensor_name("output.bias").unwrap_err();
    assert!(matches!(
        error,
        ProductionIngestionError::UnsupportedFormat { .. }
    ));
}

#[test]
fn rejects_unrecognized_names() {
    let error = normalize_tensor_name("blk.0.some_new_field.weight").unwrap_err();
    assert!(matches!(
        error,
        ProductionIngestionError::MalformedMetadata { .. }
    ));
    let error2 = normalize_tensor_name("something_else_entirely").unwrap_err();
    assert!(matches!(
        error2,
        ProductionIngestionError::MalformedMetadata { .. }
    ));
}

#[test]
fn every_weight_field_has_its_name() {
    let fields = [
        ("attn_norm", "input_norm"),
        ("ffn_norm", "post_attn_norm"),
        ("attn_q", "self_attn.q_proj"),
        ("attn_k", "self_attn.k_proj"),
        ("attn_v", "self_attn.v_proj"),
        ("attn_output", "self_attn.o_proj"),
        ("ffn_gate", "mlp.gate_proj"),
        ("ffn_up", "mlp.up_proj"),
        ("ffn_down", "mlp.down_proj"),
    ];
    let mut names = Vec::new();
    for (field, canonical) in fields {
        let name = normalize_tensor_name(&format!("blk.41.{field}.weight")).unwrap();
        assert_eq!(name, format!("layers.41.{canonical}"));
        assert!(!names.contains(&name));
        names.push(name);
    }
}

#[test]
fn layer_numerals_keep_their_spelling() {
    assert_eq!(
        normalize_tensor_name("blk.+7.attn_q.weight").unwrap(),
        "layers.+7.self_attn.q_proj"
    );
    assert_eq!(
        normalize_tensor_name("blk.007.attn_q.weight").unwrap(),
        "layers.007.self_attn.q_proj"
    );
    assert_eq!(
        normalize_tensor_name("blk.18446744073709551615.attn_q.weight").unwrap(),
        "layers.18446744073709551615.self_attn.q_proj"
    );
    assert!(normalize_tensor_name("blk.18446744073709551616.attn_q.weight").is_err());
    assert!(normalize_tensor_name("blk.-1.attn_q.weight").is_err());
    assert!(normalize_tensor_name("blk.+.attn_q.weight").is_err());
    assert!(normalize_tensor_name("blk..attn_q.weight").is_err());
}

#[test]
fn refusals_cite_the_name() {
    assert_eq!(
        reason("output.bias"),
        "tensor 'output.bias' is a bias term for 'output'; the production Qwen Component graph \
         only supports attention q/k/v bias terms"
    );
    assert_eq!(
        reason("rope_freqs"),
        "tensor 'rope_freqs' does not end in '.weight' or '.bias'"
    );
    assert_eq!(
        reason("blk.weight"),
        "tensor 'blk.weight' does not match any recognized Qwen2 GGUF tensor name shape"
    );
    assert_eq!(
        reason("blk.7.weight"),
        "tensor 'blk.7.weight' has an unrecognized per-layer name shape"
    );
    assert_eq!(
        reason("blk.x.attn_q.weight"),
        "tensor 'blk.x.attn_q.weight' has a non-numeric layer index 'x'"
    );
    assert_eq!(
        reason("blk.0.attn_q.a.weight"),
        "tensor 'blk.0.attn_q.a.weight' names an unrecognized per-layer field 'attn_q.a'"
    );
}
