use gguf_loader::error::ProductionIngestionError;
use gguf_loader::metadata::{GgufMetadata, GgufMetadataValue};
use gguf_loader::name_map::NameMap;
use gguf_loader::token_metadata::{SpecialTokenKind, TokenIdRange, TokenizerError};
use gguf_loader::tokenizer::{
    control_tokens_fit, find_outside, finish_decoding, finish_encode, text_fits, vocabulary_bytes,
    DecodeInput, DescriptionOutcome,
};
use gguf_loader::truncation::{finish_encoding, EncodeInput, EncodeOutput, TruncationPolicy};
use gguf_loader::weights::{ArtifactLoad, GgufArtifact};
use gguf_loader::{load_gguf_tokenizer, GgufTokenizer};

fn text(value: &str) -> GgufMetadataValue {
    GgufMetadataValue::String(value.to_string())
}

fn texts(values: &[&str]) -> GgufMetadataValue {
    GgufMetadataValue::Array(values.iter().map(|value| text(value)).collect())
}

fn set(metadata: &mut GgufMetadata, key: &str, value: GgufMetadataValue) {
    metadata.insert(key.to_string(), value);
}

/// A small byte-level vocabulary; `\u{120}` is the byte-level space.
fn metadata() -> GgufMetadata {
    let mut metadata = NameMap::new();
    set(&mut metadata, "tokenizer.ggml.model", text("gpt2"));
    set(
        &mut metadata,
        "tokenizer.ggml.tokens",
        texts(&["<s>", "</s>", "\u{120}", "h", "i", "hi", "\u{120}hi", "<pad>"]),
    );
    set(&mut metadata, "tokenizer.ggml.merges", texts(&["h i", "\u{120} hi"]));
    set(
        &mut metadata,
        "tokenizer.ggml.token_type",
        GgufMetadataValue::Array(
            [3, 3, 1, 1, 1, 1, 1, 3, 3]
                .iter()
                .map(|kind| GgufMetadataValue::Int32(*kind))
                .collect(),
        ),
    );
    set(&mut metadata, "tokenizer.ggml.bos_token_id", GgufMetadataValue::UInt32(0));
    set(&mut metadata, "tokenizer.ggml.eos_token_id", GgufMetadataValue::UInt64(1));
    set(&mut metadata, "tokenizer.ggml.padding_token_id", GgufMetadataValue::UInt32(7));
    metadata
}

fn build(metadata: &GgufMetadata) -> GgufTokenizer {
    match GgufTokenizer::from_gguf_metadata(metadata, "tok".to_string(), None)
        .and_then(|prepared| prepared.complete(DescriptionOutcome::Valid))
    {
        Ok(tokenizer) => tokenizer,
        Err(error) => panic!("{error:?}"),
    }
}

fn refused(
    metadata: &GgufMetadata,
    artifact_id: &str,
    expected: Option<u64>,
) -> ProductionIngestionError {
    match GgufTokenizer::from_gguf_metadata(metadata, artifact_id.to_string(), expected) {
        Ok(_) => panic!("expected a refusal"),
        Err(error) => error,
    }
}

fn reason(metadata: &GgufMetadata) -> String {
    match refused(metadata, "tok", None) {
        ProductionIngestionError::MalformedMetadata { reason } => reason,
        other => panic!("{other:?}"),
    }
}

fn input(text: &str) -> EncodeInput {
    EncodeInput {
        text: text.to_string(),
        add_special_tokens: false,
        truncation: TruncationPolicy::Never,
        max_tokens: None,
        return_offsets: false,
    }
}

fn decode(tokenizer: &GgufTokenizer, ids: &[u32], skip: bool) -> Result<String, TokenizerError> {
    tokenizer
        .decode(DecodeInput {
            token_ids: ids.to_vec(),
            skip_special_tokens: skip,
        })
        .map(|output| {
            assert_eq!(output.consumed_token_count, ids.len());
            output.text
        })
}

#[test]
fn encodes_by_merges_and_special_tokens() {
    let tokenizer = build(&metadata());
    let output = tokenizer.encode(input("hi")).unwrap();
    assert_eq!(output.token_ids, vec![6]);
    assert_eq!(output.token_count, 1);
    assert_eq!(output.attention_mask, Some(vec![1]));
    assert_eq!(output.token_type_ids, None);
    assert!(output.offsets.is_none());
    assert_eq!(tokenizer.encode(input("hi hi")).unwrap().token_ids, vec![6, 6]);
    assert_eq!(
        tokenizer.encode(input("<s>hi</s>")).unwrap().token_ids,
        vec![0, 6, 1]
    );
    assert!(tokenizer.encode(input("")).unwrap().token_ids.is_empty());
    assert_eq!(tokenizer.encode(input("h")).unwrap().token_ids, vec![2, 3]);
}

#[test]
fn offsets_cover_the_text() {
    let tokenizer = build(&metadata());
    let mut wanted = input("hi hi");
    wanted.return_offsets = true;
    let output = tokenizer.encode(wanted).unwrap();
    let spans: Vec<(u32, u32)> = output
        .offsets
        .unwrap()
        .iter()
        .map(|offset| {
            assert_eq!(offset.char_start, Some(offset.byte_start));
            assert_eq!(offset.char_end, Some(offset.byte_end));
            (offset.byte_start, offset.byte_end)
        })
        .collect();
    assert_eq!(spans, vec![(0, 2), (2, 5)]);
}

#[test]
fn decodes_what_it_encodes() {
    let tokenizer = build(&metadata());
    assert_eq!(decode(&tokenizer, &[6, 6], false).unwrap(), " hi hi");
    assert_eq!(decode(&tokenizer, &[0, 6, 1], false).unwrap(), "<s> hi</s>");
    assert_eq!(decode(&tokenizer, &[0, 6, 1], true).unwrap(), " hi");
    assert_eq!(decode(&tokenizer, &[], true).unwrap(), "");
    let encoded = tokenizer.encode(input("<s>hi hi h")).unwrap();
    assert!(decode(&tokenizer, &encoded.token_ids, false).is_ok());
    match decode(&tokenizer, &[6, 8, 9], false).unwrap_err() {
        TokenizerError::InvalidTokenId { token_id } => assert_eq!(token_id, 8),
        other => panic!("{other:?}"),
    }
}

#[test]
fn control_tokens_are_never_taken_apart() {
    let tokenizer = build(&metadata());
    for (text, id) in [("<s>", 0), ("</s>", 1), ("<pad>", 7)] {
        let mut wanted = input(text);
        wanted.return_offsets = true;
        wanted.max_tokens = Some(1);
        let output = tokenizer.encode(wanted).unwrap();
        assert_eq!(output.token_ids, vec![id]);
        let offsets = output.offsets.unwrap();
        assert_eq!(offsets.len(), 1);
        assert_eq!((offsets[0].byte_start, offsets[0].byte_end), (0, text.len() as u32));
    }
}

#[test]
fn skipping_special_tokens_decodes_the_others() {
    let tokenizer = build(&metadata());
    let skipped = decode(&tokenizer, &[0, 6, 7, 5, 1, 4], true).unwrap();
    assert_eq!(skipped, decode(&tokenizer, &[6, 5, 4], false).unwrap());
    assert_eq!(skipped, " hihii");
}

#[test]
fn control_tokens_are_special() {
    let mut plain = metadata();
    plain.remove("tokenizer.ggml.token_type");
    let tokenizer = build(&plain);
    assert_eq!(tokenizer.metadata().added_token_count, 0);
    assert_eq!(decode(&tokenizer, &[0, 6], true).unwrap(), "<s> hi");
    assert_eq!(build(&metadata()).metadata().added_token_count, 3);
    assert!(control_tokens_fit(&metadata()));
    assert!(text_fits("") && text_fits("<s>hi"));
}

#[test]
fn repeated_tokens_count_once() {
    let mut repeated = metadata();
    set(
        &mut repeated,
        "tokenizer.ggml.tokens",
        texts(&["<s>", "<s>", "\u{120}", "h", "i", "hi", "\u{120}hi", ""]),
    );
    repeated.remove("tokenizer.ggml.padding_token_id");
    let tokenizer = build(&repeated);
    assert_eq!(tokenizer.metadata().added_token_count, 1);
    assert_eq!(tokenizer.encode(input("<s>")).unwrap().token_ids, vec![1]);
    assert_eq!(tokenizer.metadata().vocabulary_size, 8);
}

#[test]
fn describes_itself() {
    let tokenizer = build(&metadata());
    let described = tokenizer.metadata();
    assert_eq!(described.id, "tok");
    assert_eq!(described.artifact, "tok");
    assert_eq!(described.family, "gguf-gpt2-bpe");
    assert_eq!(described.revision, "1");
    assert_eq!(described.vocabulary_size, 8);
    assert_eq!(
        described.token_id_range,
        TokenIdRange {
            start: 0,
            end_inclusive: 7
        }
    );
    assert!(described.supports_offsets);
    assert!(!described.byte_fallback);
    let bos = described.special_token(SpecialTokenKind::Bos).unwrap();
    assert_eq!((bos.text.as_str(), bos.id), ("<s>", 0));
    assert_eq!(described.special_token(SpecialTokenKind::Eos).unwrap().id, 1);
    assert_eq!(described.special_token(SpecialTokenKind::Pad).unwrap().id, 7);
    assert_eq!(vocabulary_bytes(&metadata()), "<s></s>\u{120}hihi\u{120}hi<pad>".as_bytes());
}

#[test]
fn identifiers_of_no_token_are_passed_over() {
    let mut beyond = metadata();
    set(&mut beyond, "tokenizer.ggml.bos_token_id", GgufMetadataValue::UInt32(8));
    set(
        &mut beyond,
        "tokenizer.ggml.eos_token_id",
        GgufMetadataValue::UInt64(0x1_0000_0000),
    );
    let tokenizer = build(&beyond);
    assert!(tokenizer.metadata().special_token(SpecialTokenKind::Bos).is_none());
    assert!(tokenizer.metadata().special_token(SpecialTokenKind::Eos).is_none());
    assert_eq!(tokenizer.metadata().special_tokens.len(), 1);
}

#[test]
fn vocabularies_larger_than_the_embedding_are_refused() {
    match refused(&metadata(), "tok", Some(7)) {
        ProductionIngestionError::MalformedMetadata { reason } => assert_eq!(
            reason,
            "GGUF tokenizer.ggml.tokens vocabulary size 8 exceeds the model's real embedding \
             table row count 7"
        ),
        other => panic!("{other:?}"),
    }
    assert!(GgufTokenizer::from_gguf_metadata(&metadata(), "tok".to_string(), Some(8)).is_ok());
}

#[test]
fn refusals_to_build_say_why() {
    assert_eq!(
        reason(&NameMap::new()),
        "GGUF metadata is missing required string key 'tokenizer.ggml.model'"
    );
    let mut other_kind = metadata();
    set(&mut other_kind, "tokenizer.ggml.model", text("llama"));
    match refused(&other_kind, "tok", None) {
        ProductionIngestionError::UnsupportedFormat { reason } => assert_eq!(
            reason,
            "GGUF tokenizer.ggml.model is 'llama'; only 'gpt2' (byte-level BPE, Qwen2's real \
             tokenizer shape) is supported"
        ),
        other => panic!("{other:?}"),
    }
    let mut changed = metadata();
    changed.remove("tokenizer.ggml.tokens");
    assert_eq!(
        reason(&changed),
        "GGUF metadata is missing required key 'tokenizer.ggml.tokens'"
    );
    set(
        &mut changed,
        "tokenizer.ggml.tokens",
        GgufMetadataValue::Array(vec![GgufMetadataValue::Bool(true)]),
    );
    assert_eq!(reason(&changed), "GGUF metadata's tokenizer.ggml.tokens is empty");
    let mut changed = metadata();
    changed.remove("tokenizer.ggml.merges");
    assert_eq!(
        reason(&changed),
        "GGUF metadata is missing required key 'tokenizer.ggml.merges'"
    );
    set(&mut changed, "tokenizer.ggml.merges", texts(&["h i", "hi"]));
    assert_eq!(
        reason(&changed),
        "GGUF tokenizer.ggml.merges entry 'hi' is not a space-separated pair"
    );
    for (merge, missing) in [("x h", "x"), ("h x", "x"), ("i h", "ih"), ("h i x", "i x")] {
        set(&mut changed, "tokenizer.ggml.merges", texts(&["h i", merge]));
        assert_eq!(
            reason(&changed),
            format!(
                "GGUF vocabulary failed to build a BPE model: Token `{missing}` out of vocabulary"
            )
        );
    }
}

#[test]
fn validation_decides_over_a_prepared_tokenizer() {
    let prepare = || {
        match GgufTokenizer::from_gguf_metadata(&metadata(), "tok".to_string(), None) {
            Ok(prepared) => prepared,
            Err(error) => panic!("{error:?}"),
        }
    };
    assert_eq!(prepare().metadata().vocabulary_size, 8);
    let error = || "no".to_string();
    for (outcome, expected) in [
        (
            DescriptionOutcome::InvalidId { error: error() },
            "invalid tokenizer id 'tok': no",
        ),
        (
            DescriptionOutcome::InvalidArtifactId { error: error() },
            "invalid tokenizer artifact id 'tok': no",
        ),
        (DescriptionOutcome::InvalidLabel { error: error() }, "no"),
        (
            DescriptionOutcome::Invalid { error: error() },
            "tokenizer metadata failed validation: no",
        ),
    ] {
        match prepare().complete(outcome) {
            Err(ProductionIngestionError::MalformedMetadata { reason }) => {
                assert_eq!(reason, expected)
            }
            Err(other) => panic!("{other:?}"),
            Ok(_) => panic!("expected a refusal"),
        }
    }
    let completed = prepare().complete(DescriptionOutcome::Valid).ok().unwrap();
    assert_eq!(completed.encode(input("hi")).unwrap().token_ids, vec![6]);
}

#[test]
fn purposes_may_share_a_token() {
    let mut shared = metadata();
    set(&mut shared, "tokenizer.ggml.padding_token_id", GgufMetadataValue::UInt32(0));
    let tokenizer = build(&shared);
    let described = tokenizer.metadata();
    assert_eq!(described.special_tokens.len(), 3);
    assert_eq!(described.special_token(SpecialTokenKind::Bos).unwrap().id, 0);
    assert_eq!(described.special_token(SpecialTokenKind::Pad).unwrap().id, 0);
}

#[test]
fn limits_cut_what_is_encoded_without_them() {
    let tokenizer = build(&metadata());
    let encode = |policy, limit| {
        let mut wanted = input("<s>hi hi h</s>");
        wanted.return_offsets = true;
        wanted.truncation = policy;
        wanted.max_tokens = limit;
        tokenizer.encode(wanted)
    };
    let whole = encode(TruncationPolicy::Never, None).unwrap();
    let places = whole.offsets.clone().unwrap();
    let total = whole.token_ids.len();
    assert_eq!(places.len(), total);
    for limit in 0..=total {
        for (policy, front) in [
            (TruncationPolicy::Left, 0),
            (TruncationPolicy::ClientPolicy, 0),
            (TruncationPolicy::Right, limit),
            (TruncationPolicy::ModelDefault, limit),
            (TruncationPolicy::Middle, limit / 2),
        ] {
            let part = encode(policy, Some(limit)).unwrap();
            let back = total - (limit - front);
            let mut ids = whole.token_ids[..front].to_vec();
            ids.extend_from_slice(&whole.token_ids[back..]);
            let mut kept = places[..front].to_vec();
            kept.extend_from_slice(&places[back..]);
            assert_eq!(part.token_ids, ids);
            assert_eq!(part.offsets.unwrap(), kept);
            assert_eq!(part.token_count, limit);
        }
    }
    assert!(encode(TruncationPolicy::Never, Some(total)).is_ok());
    assert!(encode(TruncationPolicy::Never, Some(total - 1)).is_err());
}

#[test]
fn loads_only_what_was_parsed() {
    let loaded = load_gguf_tokenizer(
        ArtifactLoad::Parsed(GgufArtifact {
            tensors: Vec::new(),
            metadata: metadata(),
            tensor_data_start: 0,
        }),
        "tok".to_string(),
        Some(8),
    );
    assert!(loaded.is_ok());
    let error = match load_gguf_tokenizer(ArtifactLoad::Unresolved, "tok".to_string(), None) {
        Ok(_) => panic!("expected a refusal"),
        Err(error) => error,
    };
    assert!(matches!(error, ProductionIngestionError::RequiredPartMissing { .. }));
}

fn limited(policy: TruncationPolicy, limit: usize) -> EncodeOutput {
    let ids: Vec<u32> = (10..17).collect();
    let spans: Vec<(usize, usize)> = (0..7).map(|at| (at, at + 1)).collect();
    finish_encoding(ids, spans, true, policy, Some(limit)).unwrap()
}

#[test]
fn truncation_keeps_the_right_tokens() {
    assert_eq!(limited(TruncationPolicy::Left, 3).token_ids, vec![14, 15, 16]);
    assert_eq!(limited(TruncationPolicy::ClientPolicy, 3).token_ids, vec![14, 15, 16]);
    assert_eq!(limited(TruncationPolicy::Right, 3).token_ids, vec![10, 11, 12]);
    assert_eq!(limited(TruncationPolicy::ModelDefault, 3).token_ids, vec![10, 11, 12]);
    let middle = limited(TruncationPolicy::Middle, 3);
    assert_eq!(middle.token_ids, vec![10, 15, 16]);
    assert_eq!(middle.token_count, 3);
    assert_eq!(middle.attention_mask, Some(vec![1, 1, 1]));
    let starts: Vec<u32> = middle.offsets.unwrap().iter().map(|o| o.byte_start).collect();
    assert_eq!(starts, vec![0, 5, 6]);
    assert!(limited(TruncationPolicy::Middle, 0).token_ids.is_empty());
    assert_eq!(limited(TruncationPolicy::Never, 7).token_ids.len(), 7);
}

#[test]
fn long_prompts_are_refused_where_nothing_may_give_way() {
    let tokenizer = build(&metadata());
    let mut wanted = input("hi hi hi");
    wanted.max_tokens = Some(2);
    let error = tokenizer.encode(wanted).unwrap_err();
    assert!(matches!(
        error,
        TokenizerError::PromptTooLong {
            token_count: 3,
            limit: 2
        }
    ));
    let mut wanted = input("hi hi h");
    wanted.max_tokens = Some(2);
    wanted.truncation = TruncationPolicy::Left;
    assert_eq!(tokenizer.encode(wanted).unwrap().token_ids, vec![2, 3]);
}

#[test]
fn failures_of_the_engine_are_passed_on() {
    match finish_encode(Err("broken".to_string()), true, TruncationPolicy::Never, None).unwrap_err()
    {
        TokenizerError::BatchInputInvalid { message } => assert_eq!(message, "broken"),
        other => panic!("{other:?}"),
    }
    match finish_decoding(Err("broken".to_string()), 3).unwrap_err() {
        TokenizerError::InvalidUtf8 { message } => assert_eq!(message, "broken"),
        other => panic!("{other:?}"),
    }
    let output = finish_decoding(Ok("fine".to_string()), 3).unwrap();
    assert_eq!((output.text.as_str(), output.consumed_token_count), ("fine", 3));
}

#[test]
fn identifiers_outside_the_range_are_found() {
    let range = TokenIdRange {
        start: 2,
        end_inclusive: 5,
    };
    assert_eq!(find_outside(range, &vec![2, 5, 3]), None);
    assert_eq!(find_outside(range, &vec![2, 1, 6]), Some(1));
    assert_eq!(find_outside(range, &vec![6]), Some(6));
}
