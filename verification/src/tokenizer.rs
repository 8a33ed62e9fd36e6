//! The tokenizer embedded in a GGUF file.
//!
//! The file's metadata holds the whole vocabulary and the merges of a byte-level
//! byte-pair encoding; a tokenizer is built from them. Encoding and decoding are the
//! engine's work, with this module's checks and truncation around it.

use tokenizers::models::bpe::BPE;
use tokenizers::Tokenizer;
use vstd::prelude::*;
use vstd::string::StringExecFns;
use vstd::utf8::encode_utf8;

use crate::engine::{add_special_tokens, added_token_count, build_bpe, new_tokenizer};
use crate::engine::{all_known, decoding, encoding, entries_vocabulary, entry_views, identifiers};
use crate::engine::{decode_ids, encode_text, set_byte_level_joining, set_byte_level_splitting};
use crate::engine::{held_merges, held_specials, held_vocabulary, joins_bytes, merge_views};
use crate::engine::{missing_token, plain_ids, splits_bytes, total_bytes};
use crate::engine::{MAX_SPECIAL_BYTES, MAX_TEXT_BYTES};
use crate::error::{malformed, malformed_view, unsupported_view};
use crate::error::{ErrorView, ProductionIngestionError};
use crate::metadata::{string_array, string_value, uint_value, GgufMetadata, GgufMetadataValue};
use crate::metadata::{string_at, text_views, texts_at, uint_at, MetadataView};
use crate::text::{decimal, decimal_text, same_text, split_at_first, split_once};
use crate::token_metadata::{in_range, special_views};
use crate::token_metadata::{DescriptionView, SpecialView, TokenizerErrorView};
use crate::token_metadata::{SpecialToken, SpecialTokenKind, TokenIdRange};
use crate::token_metadata::{TokenizerError, TokenizerMetadata};
use crate::truncation::{encode_outcome, finish_encoding, limited, truncated};
use crate::truncation::{outputs_are_consistent, truncation_meets_the_limit, EncodeView};
use crate::truncation::{EncodeInput, EncodeOutput, TruncationPolicy};
use crate::weights::{load_defect, loaded_artifact, ArtifactLoad};

verus! {

/// The number that marks a control token among the file's token types.
pub const CONTROL_TOKEN_TYPE: i32 = 3;

/// A count in 32 bits, without the bits above.
pub open spec fn low_bits(count: nat) -> u32 {
    (count % 0x1_0000_0000) as u32
}

/// The vocabulary's entries: every token has its place as its identifier.
pub open spec fn token_entries(tokens: Seq<Seq<char>>) -> Seq<(Seq<char>, u32)> {
    Seq::new(tokens.len(), |at: int| (tokens[at], low_bits(at as nat)))
}

/// The vocabulary of tokens.
pub open spec fn token_vocabulary(tokens: Seq<Seq<char>>) -> Map<Seq<char>, u32> {
    entries_vocabulary(token_entries(tokens))
}

/// The two sides of every merge, or the first entry that has no two sides.
pub open spec fn split_merges(raw: Seq<Seq<char>>) -> Result<
    Seq<(Seq<char>, Seq<char>)>,
    ErrorView,
>
    decreases raw.len(),
{
    if raw.len() == 0 {
        Ok(Seq::empty())
    } else {
        match split_merges(raw.drop_last()) {
            Err(error) => Err(error),
            Ok(merges) => match split_at_first(raw.last(), ' ') {
                Some(sides) => Ok(merges.push(sides)),
                None => Err(
                    malformed_view(
                        "GGUF tokenizer.ggml.merges entry '"@ + raw.last()
                            + "' is not a space-separated pair"@,
                    ),
                ),
            },
        }
    }
}

/// The tokens whose type is that of control tokens.
pub open spec fn controls_among(
    types: Seq<GgufMetadataValue>,
    tokens: Seq<Seq<char>>,
) -> Seq<Seq<char>>
    decreases types.len(),
{
    if types.len() == 0 {
        Seq::empty()
    } else {
        let before = controls_among(types.drop_last(), tokens);
        let at = types.len() - 1;
        if types.last() == GgufMetadataValue::Int32(CONTROL_TOKEN_TYPE) && at < tokens.len() {
            before.push(tokens[at])
        } else {
            before
        }
    }
}

/// The control tokens that metadata declares.
pub open spec fn control_tokens(metadata: MetadataView, tokens: Seq<Seq<char>>) -> Seq<Seq<char>> {
    match metadata.get("tokenizer.ggml.token_type"@) {
        Some(GgufMetadataValue::Array(types)) => controls_among(types@, tokens),
        _ => Seq::empty(),
    }
}

/// The tokens that metadata declares, none where it declares no list of them.
pub open spec fn declared_tokens(metadata: MetadataView) -> Seq<Seq<char>> {
    match texts_at(metadata, "tokenizer.ggml.tokens"@) {
        Some(tokens) => tokens,
        None => Seq::empty(),
    }
}

/// Whether the control tokens are not more than the engine can take.
pub open spec fn controls_fit(metadata: MetadataView) -> bool {
    total_bytes(control_tokens(metadata, declared_tokens(metadata))) <= MAX_SPECIAL_BYTES
}

/// The special token for a purpose, where an identifier is declared for it that is that
/// of a token.
pub open spec fn special_for(
    kind: SpecialTokenKind,
    id: Option<u64>,
    tokens: Seq<Seq<char>>,
) -> Seq<SpecialView> {
    match id {
        Some(id) => if id <= u32::MAX && id < tokens.len() {
            seq![
                SpecialView {
                    kind,
                    text: tokens[id as int],
                    id: id as u32,
                },
            ]
        } else {
            Seq::empty()
        },
        None => Seq::empty(),
    }
}

/// The special tokens that metadata declares.
pub open spec fn declared_specials(metadata: MetadataView, tokens: Seq<Seq<char>>) -> Seq<
    SpecialView,
> {
    special_for(
        SpecialTokenKind::Bos,
        uint_at(metadata, "tokenizer.ggml.bos_token_id"@),
        tokens,
    ) + special_for(
        SpecialTokenKind::Eos,
        uint_at(metadata, "tokenizer.ggml.eos_token_id"@),
        tokens,
    ) + special_for(
        SpecialTokenKind::Pad,
        uint_at(metadata, "tokenizer.ggml.padding_token_id"@),
        tokens,
    )
}

/// The highest identifier: that of the last token, or of a special token past it.
pub open spec fn highest_id(vocabulary_size: u32, specials: Seq<SpecialView>) -> u32
    decreases specials.len(),
{
    if specials.len() == 0 {
        if vocabulary_size == 0 {
            0
        } else {
            (vocabulary_size - 1) as u32
        }
    } else {
        let before = highest_id(vocabulary_size, specials.drop_last());
        if specials.last().id > before {
            specials.last().id
        } else {
            before
        }
    }
}

/// What a tokenizer is made of.
#[verifier::ext_equal]
pub struct TokenizerView {
    pub vocabulary: Map<Seq<char>, u32>,
    pub merges: Seq<(Seq<char>, Seq<char>)>,
    pub specials: Seq<Seq<char>>,
    pub splits_bytes: bool,
    pub joins_bytes: bool,
    pub description: DescriptionView,
}

/// The description of the tokenizer of tokens.
pub open spec fn described(
    metadata: MetadataView,
    tokens: Seq<Seq<char>>,
    artifact_id: Seq<char>,
) -> DescriptionView {
    let vocabulary_size = low_bits(tokens.len());
    let specials = declared_specials(metadata, tokens);
    DescriptionView {
        id: artifact_id,
        artifact: artifact_id,
        family: "gguf-gpt2-bpe"@,
        revision: "1"@,
        vocabulary_size,
        added_token_count: low_bits(
            identifiers(
                token_vocabulary(tokens),
                control_tokens(metadata, tokens),
            ).to_set().len(),
        ),
        token_id_range: TokenIdRange {
            start: 0,
            end_inclusive: highest_id(vocabulary_size, specials),
        },
        model_max_length: None,
        special_tokens: specials,
        byte_fallback: false,
        supports_offsets: true,
        supports_token_type_ids: false,
        supports_browser: false,
    }
}

/// The tokenizer of tokens and merges, or why there is none.
pub open spec fn built_from(
    metadata: MetadataView,
    tokens: Seq<Seq<char>>,
    raw_merges: Seq<Seq<char>>,
    artifact_id: Seq<char>,
    expected: Option<u64>,
) -> Result<TokenizerView, ErrorView> {
    let size = low_bits(tokens.len());
    if expected is Some && size > expected.unwrap() {
        Err(
            malformed_view(
                "GGUF tokenizer.ggml.tokens vocabulary size "@ + decimal_text(size as nat)
                    + " exceeds the model's real embedding table row count "@ + decimal_text(
                    expected.unwrap() as nat,
                ),
            ),
        )
    } else {
        match split_merges(raw_merges) {
            Err(error) => Err(error),
            Ok(merges) => match missing_token(token_vocabulary(tokens), merges) {
                Some(token) => Err(
                    malformed_view(
                        "GGUF vocabulary failed to build a BPE model: "@ + ("Token `"@ + token
                            + "` out of vocabulary"@),
                    ),
                ),
                None => Ok(
                    TokenizerView {
                        vocabulary: token_vocabulary(tokens),
                        merges,
                        specials: control_tokens(metadata, tokens),
                        splits_bytes: true,
                        joins_bytes: true,
                        description: described(metadata, tokens, artifact_id),
                    },
                ),
            },
        }
    }
}

/// The tokenizer that metadata describes, or why it describes none.
pub open spec fn built(
    metadata: MetadataView,
    artifact_id: Seq<char>,
    expected: Option<u64>,
) -> Result<TokenizerView, ErrorView> {
    match string_at(metadata, "tokenizer.ggml.model"@) {
        None => Err(
            malformed_view(
                "GGUF metadata is missing required string key 'tokenizer.ggml.model'"@,
            ),
        ),
        Some(kind) => if kind != "gpt2"@ {
            Err(
                unsupported_view(
                    "GGUF tokenizer.ggml.model is '"@ + kind
                        + "'; only 'gpt2' (byte-level BPE, Qwen2's real tokenizer shape) is supported"@,
                ),
            )
        } else {
            match texts_at(metadata, "tokenizer.ggml.tokens"@) {
                None => Err(
                    malformed_view(
                        "GGUF metadata is missing required key 'tokenizer.ggml.tokens'"@,
                    ),
                ),
                Some(tokens) => if tokens.len() == 0 {
                    Err(malformed_view("GGUF metadata's tokenizer.ggml.tokens is empty"@))
                } else {
                    match texts_at(metadata, "tokenizer.ggml.merges"@) {
                        None => Err(
                            malformed_view(
                                "GGUF metadata is missing required key 'tokenizer.ggml.merges'"@,
                            ),
                        ),
                        Some(raw_merges) => built_from(
                            metadata,
                            tokens,
                            raw_merges,
                            artifact_id,
                            expected,
                        ),
                    }
                },
            }
        },
    }
}

/// A tokenizer built from a GGUF file's own vocabulary.
pub struct GgufTokenizer {
    inner: Tokenizer,
    metadata: TokenizerMetadata,
}

impl View for GgufTokenizer {
    type V = TokenizerView;

    closed spec fn view(&self) -> TokenizerView {
        TokenizerView {
            vocabulary: held_vocabulary(self.inner),
            merges: held_merges(self.inner),
            specials: held_specials(self.inner),
            splits_bytes: splits_bytes(self.inner),
            joins_bytes: joins_bytes(self.inner),
            description: self.metadata@,
        }
    }
}

/// A tokenizer whose description is still to be validated by whoever takes it over.
pub struct PreparedTokenizer {
    tokenizer: GgufTokenizer,
}

impl View for PreparedTokenizer {
    type V = TokenizerView;

    closed spec fn view(&self) -> TokenizerView {
        self.tokenizer@
    }
}

/// What came of handing a description over to whoever takes the tokenizer.
#[derive(Debug)]
pub enum DescriptionOutcome {
    /// It was accepted.
    Valid,
    /// Its identifier was refused.
    InvalidId { error: String },
    /// The identifier of its artifact was refused.
    InvalidArtifactId { error: String },
    /// Its family or its revision was refused.
    InvalidLabel { error: String },
    /// It was refused as a whole.
    Invalid { error: String },
}

/// What is said where a description was refused.
pub open spec fn description_refusal(id: Seq<char>, outcome: DescriptionOutcome) -> Option<
    Seq<char>,
> {
    match outcome {
        DescriptionOutcome::Valid => None,
        DescriptionOutcome::InvalidId { error } => Some(
            "invalid tokenizer id '"@ + id + "': "@ + error@,
        ),
        DescriptionOutcome::InvalidArtifactId { error } => Some(
            "invalid tokenizer artifact id '"@ + id + "': "@ + error@,
        ),
        DescriptionOutcome::InvalidLabel { error } => Some(error@),
        DescriptionOutcome::Invalid { error } => Some(
            "tokenizer metadata failed validation: "@ + error@,
        ),
    }
}

impl PreparedTokenizer {
    /// The description that is to be validated.
    pub fn metadata(&self) -> (metadata: &TokenizerMetadata)
        ensures
            metadata@ == self@.description,
    {
        &self.tokenizer.metadata
    }

    /// Hands out the tokenizer where its description was accepted.
    pub fn complete(self, outcome: DescriptionOutcome) -> (tokenizer: Result<
        GgufTokenizer,
        ProductionIngestionError,
    >)
        ensures
            match tokenizer {
                Ok(tokenizer) => tokenizer@ == self@ && description_refusal(
                    self@.description.id,
                    outcome,
                ) is None,
                Err(error) => description_refusal(self@.description.id, outcome) matches Some(
                    reason,
                ) && error@ == malformed_view(reason),
            },
    {
        let (mut reason, error): (String, String) = match outcome {
            DescriptionOutcome::Valid => return Ok(self.tokenizer),
            DescriptionOutcome::InvalidId { error } => {
                let mut start: String = String::from_str("invalid tokenizer id '");
                start.append(self.tokenizer.metadata.id.as_str());
                start.append("': ");
                (start, error)
            },
            DescriptionOutcome::InvalidArtifactId { error } => {
                let mut start: String = String::from_str("invalid tokenizer artifact id '");
                start.append(self.tokenizer.metadata.id.as_str());
                start.append("': ");
                (start, error)
            },
            DescriptionOutcome::InvalidLabel { error } => return Err(malformed(error)),
            DescriptionOutcome::Invalid { error } => (
                String::from_str("tokenizer metadata failed validation: "),
                error,
            ),
        };
        reason.append(error.as_str());
        Err(malformed(reason))
    }
}

fn truncate_count(count: usize) -> (bits: u32)
    ensures
        bits == low_bits(count as nat),
{
    (count as u64 % 0x1_0000_0000) as u32
}

fn list_entries(tokens: &Vec<&str>) -> (entries: Vec<(String, u32)>)
    ensures
        entry_views(entries@) == token_entries(text_views(tokens@)),
{
    let ghost goal = token_entries(text_views(tokens@));
    let mut entries: Vec<(String, u32)> = Vec::new();
    let mut at: usize = 0;
    assert(entry_views(entries@) =~= goal.take(0));
    while at < tokens.len()
        invariant
            at <= tokens@.len(),
            goal == token_entries(text_views(tokens@)),
            entry_views(entries@) == goal.take(at as int),
        decreases tokens@.len() - at,
    {
        let ghost before = entries@;
        entries.push((String::from_str(tokens[at]), truncate_count(at)));
        proof {
            assert(entry_views(entries@) =~= entry_views(before).push(goal[at as int]));
            assert(goal.take(at + 1) =~= goal.take(at as int).push(goal[at as int]));
        }
        at += 1;
    }
    assert(goal.take(at as int) =~= goal);
    entries
}

/// What keeps a first part of the entries from being split keeps them all.
proof fn lemma_merges_fail(raw: Seq<Seq<char>>, at: int)
    requires
        0 <= at <= raw.len(),
        split_merges(raw.take(at)) is Err,
    ensures
        split_merges(raw) == split_merges(raw.take(at)),
    decreases raw.len() - at,
{
    if at < raw.len() {
        assert(raw.take(at + 1).drop_last() =~= raw.take(at));
        lemma_merges_fail(raw, at + 1);
    } else {
        assert(raw.take(at) =~= raw);
    }
}

fn read_merges(raw: &Vec<&str>) -> (merges: Result<
    Vec<(String, String)>,
    ProductionIngestionError,
>)
    ensures
        match merges {
            Ok(merges) => split_merges(text_views(raw@)) == Ok::<_, ErrorView>(
                merge_views(merges@),
            ),
            Err(error) => split_merges(text_views(raw@)) == Err::<
                Seq<(Seq<char>, Seq<char>)>,
                _,
            >(error@),
        },
{
    let ghost all = text_views(raw@);
    let mut merges: Vec<(String, String)> = Vec::new();
    let mut at: usize = 0;
    proof {
        assert(all.take(0) =~= Seq::<Seq<char>>::empty());
        assert(merge_views(merges@) =~= Seq::<(Seq<char>, Seq<char>)>::empty());
    }
    while at < raw.len()
        invariant
            at <= raw@.len(),
            all == text_views(raw@),
            split_merges(all.take(at as int)) == Ok::<_, ErrorView>(merge_views(merges@)),
        decreases raw@.len() - at,
    {
        let ghost before = merges@;
        proof {
            assert(all.take(at + 1).drop_last() =~= all.take(at as int));
            assert(all.take(at + 1).last() == raw@[at as int]@);
        }
        match split_once(raw[at], ' ') {
            Some((left, right)) => {
                merges.push((String::from_str(left), String::from_str(right)));
                assert(merge_views(merges@) =~= merge_views(before).push((left@, right@)));
            },
            None => {
                proof {
                    lemma_merges_fail(all, at + 1);
                }
                let mut reason: String = String::from_str("GGUF tokenizer.ggml.merges entry '");
                reason.append(raw[at]);
                reason.append("' is not a space-separated pair");
                return Err(malformed(reason));
            },
        }
        at += 1;
    }
    assert(all.take(at as int) =~= all);
    Ok(merges)
}

fn list_controls<'a>(metadata: &GgufMetadata, tokens: &Vec<&'a str>) -> (controls: Vec<&'a str>)
    ensures
        text_views(controls@) == control_tokens(metadata@, text_views(tokens@)),
{
    let ghost texts = text_views(tokens@);
    let mut controls: Vec<&'a str> = Vec::new();
    assert(text_views(controls@) =~= Seq::<Seq<char>>::empty());
    match metadata.get("tokenizer.ggml.token_type") {
        Some(GgufMetadataValue::Array(types)) => {
            let mut at: usize = 0;
            assert(types@.take(0) =~= Seq::<GgufMetadataValue>::empty());
            while at < types.len()
                invariant
                    at <= types@.len(),
                    texts == text_views(tokens@),
                    text_views(controls@) == controls_among(types@.take(at as int), texts),
                decreases types@.len() - at,
            {
                let ghost before = controls@;
                proof {
                    assert(types@.take(at + 1).drop_last() =~= types@.take(at as int));
                    assert(types@.take(at + 1).last() == types@[at as int]);
                }
                match &types[at] {
                    GgufMetadataValue::Int32(kind) => {
                        if *kind == CONTROL_TOKEN_TYPE && at < tokens.len() {
                            controls.push(tokens[at]);
                            assert(text_views(controls@) =~= text_views(before).push(
                                texts[at as int],
                            ));
                        }
                    },
                    _ => {},
                }
                at += 1;
            }
            assert(types@.take(at as int) =~= types@);
        },
        _ => {},
    }
    controls
}

/// Control tokens are tokens.
proof fn lemma_controls_are_tokens(types: Seq<GgufMetadataValue>, tokens: Seq<Seq<char>>)
    ensures
        forall|at: int|
            0 <= at < controls_among(types, tokens).len() ==> tokens.contains(
                #[trigger] controls_among(types, tokens)[at],
            ),
    decreases types.len(),
{
    if types.len() > 0 {
        lemma_controls_are_tokens(types.drop_last(), tokens);
        let before = controls_among(types.drop_last(), tokens);
        let all = controls_among(types, tokens);
        assert forall|at: int| 0 <= at < all.len() implies tokens.contains(
            #[trigger] all[at],
        ) by {
            if at < before.len() {
                assert(all[at] == before[at]);
            }
        }
    }
}

/// A vocabulary has exactly the tokens it was made of, and identifies each by one of its
/// places.
proof fn lemma_vocabulary(tokens: Seq<Seq<char>>)
    ensures
        forall|token: Seq<char>| #[trigger]
            token_vocabulary(tokens).contains_key(token) <==> tokens.contains(token),
        forall|token: Seq<char>| #[trigger]
            token_vocabulary(tokens).contains_key(token) ==> exists|at: int|
                0 <= at < tokens.len() && tokens[at] == token && token_vocabulary(tokens)[token]
                    == #[trigger] low_bits(at as nat),
    decreases tokens.len(),
{
    if tokens.len() > 0 {
        let shorter = tokens.drop_last();
        let last = (tokens.len() - 1) as int;
        lemma_vocabulary(shorter);
        assert(token_entries(tokens).drop_last() =~= token_entries(shorter));
        let vocabulary = token_vocabulary(tokens);
        assert(vocabulary == token_vocabulary(shorter).insert(tokens[last], low_bits(last as nat)));
        assert forall|token: Seq<char>| #[trigger]
            vocabulary.contains_key(token) <==> tokens.contains(token) by {
            if token_vocabulary(shorter).contains_key(token) {
                let at = choose|at: int| 0 <= at < shorter.len() && shorter[at] == token;
                assert(tokens[at] == token);
            }
            if tokens.contains(token) && token != tokens[last] {
                let at = choose|at: int| 0 <= at < tokens.len() && tokens[at] == token;
                assert(shorter[at] == token);
            }
        }
        assert forall|token: Seq<char>| #[trigger]
            vocabulary.contains_key(token) implies exists|at: int|
            0 <= at < tokens.len() && tokens[at] == token && vocabulary[token]
                == #[trigger] low_bits(at as nat) by {
            if token == tokens[last] {
                assert(vocabulary[token] == low_bits(last as nat));
            } else {
                assert(token_vocabulary(shorter).contains_key(token));
                let at = choose|at: int|
                    0 <= at < shorter.len() && shorter[at] == token && token_vocabulary(
                        shorter,
                    )[token] == #[trigger] low_bits(at as nat);
                assert(tokens[at] == token && vocabulary[token] == low_bits(at as nat));
            }
        }
    }
}

/// The control tokens that metadata declares are known to the vocabulary.
proof fn lemma_controls_are_known(metadata: MetadataView, tokens: Seq<Seq<char>>)
    ensures
        all_known(token_vocabulary(tokens), control_tokens(metadata, tokens)),
{
    lemma_vocabulary(tokens);
    match metadata.get("tokenizer.ggml.token_type"@) {
        Some(GgufMetadataValue::Array(types)) => {
            lemma_controls_are_tokens(types@, tokens);
        },
        _ => {},
    }
}

fn push_special(
    specials: &mut Vec<SpecialToken>,
    kind: SpecialTokenKind,
    id: Option<u64>,
    tokens: &Vec<&str>,
)
    ensures
        special_views(final(specials)@) == special_views(old(specials)@) + special_for(
            kind,
            id,
            text_views(tokens@),
        ),
{
    let ghost before = specials@;
    match id {
        Some(id) => {
            if id <= u32::MAX as u64 && id < tokens.len() as u64 {
                let token = SpecialToken {
                    kind,
                    text: String::from_str(tokens[id as usize]),
                    id: id as u32,
                };
                specials.push(token);
                assert(special_views(specials@) =~= special_views(before).push(token@));
            }
        },
        None => {},
    }
    assert(special_views(specials@) =~= special_views(before) + special_for(
        kind,
        id,
        text_views(tokens@),
    ));
}

fn list_specials(metadata: &GgufMetadata, tokens: &Vec<&str>) -> (specials: Vec<SpecialToken>)
    ensures
        special_views(specials@) == declared_specials(metadata@, text_views(tokens@)),
{
    let mut specials: Vec<SpecialToken> = Vec::new();
    assert(special_views(specials@) =~= Seq::<SpecialView>::empty());
    push_special(
        &mut specials,
        SpecialTokenKind::Bos,
        uint_value(metadata, "tokenizer.ggml.bos_token_id"),
        tokens,
    );
    push_special(
        &mut specials,
        SpecialTokenKind::Eos,
        uint_value(metadata, "tokenizer.ggml.eos_token_id"),
        tokens,
    );
    push_special(
        &mut specials,
        SpecialTokenKind::Pad,
        uint_value(metadata, "tokenizer.ggml.padding_token_id"),
        tokens,
    );
    assert(special_views(specials@) =~= declared_specials(metadata@, text_views(tokens@)));
    specials
}

fn find_highest_id(vocabulary_size: u32, specials: &Vec<SpecialToken>) -> (id: u32)
    ensures
        id == highest_id(vocabulary_size, special_views(specials@)),
{
    let ghost views = special_views(specials@);
    let mut highest: u32 = vocabulary_size.saturating_sub(1);
    let mut at: usize = 0;
    assert(views.take(0) =~= Seq::<SpecialView>::empty());
    while at < specials.len()
        invariant
            at <= specials@.len(),
            views == special_views(specials@),
            highest == highest_id(vocabulary_size, views.take(at as int)),
        decreases specials@.len() - at,
    {
        proof {
            assert(views.take(at + 1).drop_last() =~= views.take(at as int));
            assert(views.take(at + 1).last() == specials@[at as int]@);
        }
        if specials[at].id > highest {
            highest = specials[at].id;
        }
        at += 1;
    }
    assert(views.take(at as int) =~= views);
    highest
}

/// Whether the control tokens that metadata declares are not more than the engine can
/// take.
pub fn control_tokens_fit(metadata: &GgufMetadata) -> (answer: bool)
    ensures
        answer == controls_fit(metadata@),
{
    let tokens: Vec<&str> = match string_array(metadata, "tokenizer.ggml.tokens") {
        Some(tokens) => tokens,
        None => Vec::new(),
    };
    assert(text_views(tokens@) =~= declared_tokens(metadata@));
    let controls: Vec<&str> = list_controls(metadata, &tokens);
    let ghost texts = text_views(controls@);
    let mut total: u64 = 0;
    let mut at: usize = 0;
    assert(texts.take(0) =~= Seq::<Seq<char>>::empty());
    while at < controls.len()
        invariant
            at <= controls@.len(),
            texts == text_views(controls@),
            texts == control_tokens(metadata@, declared_tokens(metadata@)),
            total == total_bytes(texts.take(at as int)),
            total <= MAX_SPECIAL_BYTES,
        decreases controls@.len() - at,
    {
        proof {
            assert(texts.take(at + 1).drop_last() =~= texts.take(at as int));
            assert(texts.take(at + 1).last() == controls@[at as int]@);
        }
        let length: u64 = controls[at].as_bytes().len() as u64;
        if length > MAX_SPECIAL_BYTES - total {
            proof {
                lemma_total_grows(texts, at + 1);
            }
            return false;
        }
        total += length;
        at += 1;
    }
    assert(texts.take(at as int) =~= texts);
    true
}

/// All texts together take at least what the first of them take.
proof fn lemma_total_grows(texts: Seq<Seq<char>>, at: int)
    requires
        0 <= at <= texts.len(),
    ensures
        total_bytes(texts.take(at)) <= total_bytes(texts),
    decreases texts.len() - at,
{
    if at < texts.len() {
        assert(texts.take(at + 1).drop_last() =~= texts.take(at));
        lemma_total_grows(texts, at + 1);
    } else {
        assert(texts.take(at) =~= texts);
    }
}

/// The bytes of tokens, one after another.
pub open spec fn joined_bytes(tokens: Seq<Seq<char>>) -> Seq<u8>
    decreases tokens.len(),
{
    if tokens.len() == 0 {
        Seq::empty()
    } else {
        joined_bytes(tokens.drop_last()) + encode_utf8(tokens.last())
    }
}

/// The bytes whose digest identifies a tokenizer: those of its tokens, one after another.
pub fn vocabulary_bytes(metadata: &GgufMetadata) -> (bytes: Vec<u8>)
    ensures
        bytes@ == joined_bytes(declared_tokens(metadata@)),
{
    let tokens: Vec<&str> = match string_array(metadata, "tokenizer.ggml.tokens") {
        Some(tokens) => tokens,
        None => Vec::new(),
    };
    let ghost texts = text_views(tokens@);
    assert(texts =~= declared_tokens(metadata@));
    let mut bytes: Vec<u8> = Vec::new();
    let mut at: usize = 0;
    assert(texts.take(0) =~= Seq::<Seq<char>>::empty());
    while at < tokens.len()
        invariant
            at <= tokens@.len(),
            texts == text_views(tokens@),
            bytes@ == joined_bytes(texts.take(at as int)),
        decreases tokens@.len() - at,
    {
        proof {
            assert(texts.take(at + 1).drop_last() =~= texts.take(at as int));
            assert(texts.take(at + 1).last() == tokens@[at as int]@);
        }
        bytes.extend_from_slice(tokens[at].as_bytes());
        assert(bytes@ =~= joined_bytes(texts.take(at + 1)));
        at += 1;
    }
    assert(texts.take(at as int) =~= texts);
    bytes
}

/// Whether a text is not more than the engine can encode.
pub fn text_fits(text: &str) -> (answer: bool)
    ensures
        answer == (encode_utf8(text@).len() <= MAX_TEXT_BYTES),
{
    let length: usize = text.as_bytes().len();
    length as u64 <= MAX_TEXT_BYTES
}

/// Identifiers to decode.
#[derive(Debug)]
pub struct DecodeInput {
    pub token_ids: Vec<u32>,
    pub skip_special_tokens: bool,
}

/// A decoded text.
#[derive(Debug)]
pub struct DecodeOutput {
    pub text: String,
    pub consumed_token_count: usize,
}

/// The first identifier outside a range.
pub open spec fn first_outside(range: TokenIdRange, ids: Seq<u32>) -> Option<u32>
    decreases ids.len(),
{
    if ids.len() == 0 {
        None
    } else if !in_range(range, ids[0]) {
        Some(ids[0])
    } else {
        first_outside(range, ids.skip(1))
    }
}

/// A decoding's outcome: the text and the number of identifiers it was made of, or the
/// error.
pub open spec fn decode_outcome(result: Result<DecodeOutput, TokenizerError>) -> Result<
    (Seq<char>, nat),
    TokenizerErrorView,
> {
    match result {
        Ok(output) => Ok((output.text@, output.consumed_token_count as nat)),
        Err(error) => Err(error@),
    }
}

/// What is handed out for what the engine decoded.
pub open spec fn decoded(
    result: Result<Seq<char>, Seq<char>>,
    count: nat,
) -> Result<(Seq<char>, nat), TokenizerErrorView> {
    match result {
        Ok(text) => Ok((text, count)),
        Err(message) => Err(TokenizerErrorView::InvalidUtf8(message)),
    }
}

/// What the engine makes of identifiers, for a tokenizer in which no two tokens share one: to
/// skip special tokens is to decode the other identifiers.
pub open spec fn decoded_text(
    tokenizer: TokenizerView,
    token_ids: Seq<u32>,
    skip_special_tokens: bool,
) -> Result<Seq<char>, Seq<char>> {
    decoding(
        tokenizer.vocabulary,
        tokenizer.specials,
        tokenizer.joins_bytes,
        if skip_special_tokens {
            plain_ids(tokenizer.vocabulary, tokenizer.specials, token_ids)
        } else {
            token_ids
        },
        false,
    )
}

/// What is handed out for what the engine encoded.
pub open spec fn encoded_by(
    result: Result<(Seq<u32>, Seq<(usize, usize)>), Seq<char>>,
    return_offsets: bool,
    policy: TruncationPolicy,
    max_tokens: Option<usize>,
) -> Result<EncodeView, TokenizerErrorView> {
    match result {
        Ok((ids, spans)) => limited(ids, spans, return_offsets, policy, max_tokens),
        Err(message) => Err(TokenizerErrorView::BatchInputInvalid(message)),
    }
}

/// Makes of what the engine encoded what is handed out for it.
pub fn finish_encode(
    result: Result<(Vec<u32>, Vec<(usize, usize)>), String>,
    return_offsets: bool,
    policy: TruncationPolicy,
    max_tokens: Option<usize>,
) -> (output: Result<EncodeOutput, TokenizerError>)
    requires
        result matches Ok((ids, spans)) ==> ids@.len() == spans@.len(),
    ensures
        encode_outcome(output) == encoded_by(
            match result {
                Ok((ids, spans)) => Ok((ids@, spans@)),
                Err(message) => Err(message@),
            },
            return_offsets,
            policy,
            max_tokens,
        ),
{
    match result {
        Ok((ids, spans)) => finish_encoding(ids, spans, return_offsets, policy, max_tokens),
        Err(message) => Err(TokenizerError::BatchInputInvalid { message }),
    }
}

/// Makes of what the engine decoded what is handed out for it.
pub fn finish_decoding(result: Result<String, String>, count: usize) -> (output: Result<
    DecodeOutput,
    TokenizerError,
>)
    ensures
        decode_outcome(output) == decoded(
            match result {
                Ok(text) => Ok(text@),
                Err(message) => Err(message@),
            },
            count as nat,
        ),
{
    match result {
        Ok(text) => Ok(DecodeOutput { text, consumed_token_count: count }),
        Err(message) => Err(TokenizerError::InvalidUtf8 { message }),
    }
}

/// The first of `ids` outside `range`.
pub fn find_outside(range: TokenIdRange, ids: &Vec<u32>) -> (id: Option<u32>)
    ensures
        id == first_outside(range, ids@),
{
    let mut at: usize = 0;
    assert(ids@.skip(0) =~= ids@);
    while at < ids.len()
        invariant
            at <= ids@.len(),
            first_outside(range, ids@) == first_outside(range, ids@.skip(at as int)),
        decreases ids@.len() - at,
    {
        assert(ids@.skip(at as int).skip(1) =~= ids@.skip(at + 1));
        if !range.contains(ids[at]) {
            return Some(ids[at]);
        }
        at += 1;
    }
    None
}

impl GgufTokenizer {
    #[verifier::type_invariant]
    spec fn well_formed(self) -> bool {
        &&& all_known(held_vocabulary(self.inner), held_specials(self.inner))
        &&& joins_bytes(self.inner)
    }

    /// Prepares the tokenizer that a GGUF file's metadata describes: a byte-level
    /// byte-pair encoding, the kind `gpt2`, with a vocabulary and merges. Where
    /// `expected_vocab_size`, the number of rows of the embedding table, is given, the
    /// vocabulary may not be larger: its identifiers would point past the table.
    pub fn from_gguf_metadata(
        metadata: &GgufMetadata,
        artifact_id: String,
        expected_vocab_size: Option<u64>,
    ) -> (tokenizer: Result<PreparedTokenizer, ProductionIngestionError>)
        requires
            controls_fit(metadata@),
        ensures
            match tokenizer {
                Ok(tokenizer) => built(metadata@, artifact_id@, expected_vocab_size) == Ok::<
                    _,
                    ErrorView,
                >(tokenizer@),
                Err(error) => built(metadata@, artifact_id@, expected_vocab_size) == Err::<
                    TokenizerView,
                    _,
                >(error@),
            },
    {
        match string_value(metadata, "tokenizer.ggml.model") {
            None => {
                return Err(
                    malformed(
                        String::from_str(
                            "GGUF metadata is missing required string key 'tokenizer.ggml.model'",
                        ),
                    ),
                );
            },
            Some(kind) => {
                if !same_text(kind, "gpt2") {
                    let mut reason: String = String::from_str("GGUF tokenizer.ggml.model is '");
                    reason.append(kind);
                    reason.append(
                        "'; only 'gpt2' (byte-level BPE, Qwen2's real tokenizer shape) is supported",
                    );
                    return Err(ProductionIngestionError::UnsupportedFormat { reason });
                }
            },
        }
        let tokens: Vec<&str> = match string_array(metadata, "tokenizer.ggml.tokens") {
            Some(tokens) => tokens,
            None => {
                return Err(
                    malformed(
                        String::from_str(
                            "GGUF metadata is missing required key 'tokenizer.ggml.tokens'",
                        ),
                    ),
                );
            },
        };
        if tokens.len() == 0 {
            return Err(
                malformed(String::from_str("GGUF metadata's tokenizer.ggml.tokens is empty")),
            );
        }
        match string_array(metadata, "tokenizer.ggml.merges") {
            Some(raw_merges) => {
                build(metadata, tokens, raw_merges, artifact_id, expected_vocab_size)
            },
            None => Err(
                malformed(
                    String::from_str(
                        "GGUF metadata is missing required key 'tokenizer.ggml.merges'",
                    ),
                ),
            ),
        }
    }

    /// The description of the tokenizer.
    pub fn metadata(&self) -> (metadata: &TokenizerMetadata)
        ensures
            metadata@ == self@.description,
    {
        &self.metadata
    }

    /// Encodes a text. Every identifier that comes out is that of a token in the
    /// vocabulary, and a control token as a text is never taken apart.
    pub fn encode(&self, input: EncodeInput) -> (output: Result<EncodeOutput, TokenizerError>)
        requires
            encode_utf8(input.text@).len() <= MAX_TEXT_BYTES,
        ensures
            input.return_offsets && !self@.description.supports_offsets ==> encode_outcome(output)
                == Err::<EncodeView, _>(TokenizerErrorView::OffsetsUnsupported),
            !(input.return_offsets && !self@.description.supports_offsets) ==> encode_outcome(
                output,
            ) == encoded_by(
                encoding(
                    self@.vocabulary,
                    self@.merges,
                    self@.specials,
                    self@.splits_bytes,
                    input.text@,
                    input.add_special_tokens,
                ),
                input.return_offsets,
                input.truncation,
                input.max_tokens,
            ),
            output matches Ok(output) ==> forall|at: int|
                0 <= at < output.token_ids@.len() ==> self@.vocabulary.contains_value(
                    #[trigger] output.token_ids@[at],
                ),
            output matches Ok(output) ==> (output.offsets matches Some(offsets) ==> offsets@.len()
                == output.token_ids@.len()),
            !(input.return_offsets && !self@.description.supports_offsets)
                && self@.specials.contains(input.text@) && input.text@.len() > 0
                && input.max_tokens != Some(0usize) ==> (output matches Ok(output)
                && output.token_ids@ == seq![self@.vocabulary[input.text@]]),
    {
        proof {
            use_type_invariant(self);
        }
        if input.return_offsets && !self.metadata.supports_offsets {
            return Err(TokenizerError::OffsetsUnsupported);
        }
        let result = encode_text(&self.inner, input.text.as_str(), input.add_special_tokens);
        let ghost (all, covered) = (result->Ok_0.0@, result->Ok_0.1@);
        let ghost succeeded = result is Ok;
        let output = finish_encode(
            result,
            input.return_offsets,
            input.truncation,
            input.max_tokens,
        );
        proof {
            if succeeded && output is Ok {
                let kept = output->Ok_0.token_ids@;
                outputs_are_consistent(
                    all,
                    covered,
                    input.return_offsets,
                    input.truncation,
                    input.max_tokens,
                );
                assert(output->Ok_0@.offsets matches Some(offsets) ==> offsets.len()
                    == kept.len());
                lemma_limited_ids(
                    all,
                    covered,
                    input.return_offsets,
                    input.truncation,
                    input.max_tokens,
                );
                assert forall|at: int| 0 <= at < kept.len() implies self@.vocabulary.contains_value(
                    #[trigger] kept[at],
                ) by {
                    let from = choose|from: int| 0 <= from < all.len() && all[from] == kept[at];
                    assert(held_vocabulary(self.inner).contains_value(all[from]));
                }
            }
        }
        output
    }

    /// Decodes identifiers. It fails exactly where one is outside the range, and cites
    /// the first such. The text is the engine's, and fixed by the vocabulary where no two
    /// tokens share an identifier; to skip special tokens is to decode the other
    /// identifiers.
    pub fn decode(&self, input: DecodeInput) -> (output: Result<DecodeOutput, TokenizerError>)
        ensures
            match first_outside(self@.description.token_id_range, input.token_ids@) {
                Some(id) => decode_outcome(output) == Err::<(Seq<char>, nat), _>(
                    TokenizerErrorView::InvalidTokenId(id),
                ),
                None => {
                    &&& output matches Ok(output) && output.consumed_token_count
                        == input.token_ids@.len()
                    &&& self@.vocabulary.is_injective() ==> decode_outcome(output) == decoded(
                        decoded_text(self@, input.token_ids@, input.skip_special_tokens),
                        input.token_ids@.len(),
                    )
                },
            },
    {
        proof {
            use_type_invariant(self);
        }
        match find_outside(self.metadata.token_id_range, &input.token_ids) {
            Some(token_id) => {
                return Err(TokenizerError::InvalidTokenId { token_id });
            },
            None => {},
        }
        let result = decode_ids(&self.inner, &input.token_ids, input.skip_special_tokens);
        finish_decoding(result, input.token_ids.len())
    }
}

/// What is handed out of an encoding was in it.
proof fn lemma_limited_ids(
    ids: Seq<u32>,
    spans: Seq<(usize, usize)>,
    return_offsets: bool,
    policy: TruncationPolicy,
    max_tokens: Option<usize>,
)
    ensures
        limited(ids, spans, return_offsets, policy, max_tokens) matches Ok(output) ==> forall|
            at: int,
        |
            0 <= at < output.token_ids.len() ==> ids.contains(#[trigger] output.token_ids[at]),
{
    match max_tokens {
        Some(limit) => {
            if ids.len() > limit && policy != TruncationPolicy::Never {
                truncation_meets_the_limit(ids, policy, limit as nat);
            }
        },
        None => {},
    }
}

fn build(
    metadata: &GgufMetadata,
    tokens: Vec<&str>,
    raw_merges: Vec<&str>,
    artifact_id: String,
    expected_vocab_size: Option<u64>,
) -> (tokenizer: Result<PreparedTokenizer, ProductionIngestionError>)
    requires
        total_bytes(control_tokens(metadata@, text_views(tokens@))) <= MAX_SPECIAL_BYTES,
    ensures
        match tokenizer {
            Ok(tokenizer) => built_from(
                metadata@,
                text_views(tokens@),
                text_views(raw_merges@),
                artifact_id@,
                expected_vocab_size,
            ) == Ok::<_, ErrorView>(tokenizer@),
            Err(error) => built_from(
                metadata@,
                text_views(tokens@),
                text_views(raw_merges@),
                artifact_id@,
                expected_vocab_size,
            ) == Err::<TokenizerView, _>(error@),
        },
{
    let ghost texts = text_views(tokens@);
    let vocabulary_size: u32 = truncate_count(tokens.len());
    match expected_vocab_size {
        Some(expected) => {
            if vocabulary_size as u64 > expected {
                let mut reason: String = String::from_str(
                    "GGUF tokenizer.ggml.tokens vocabulary size ",
                );
                reason.append(decimal(vocabulary_size as u64).as_str());
                reason.append(" exceeds the model's real embedding table row count ");
                reason.append(decimal(expected).as_str());
                return Err(malformed(reason));
            }
        },
        None => {},
    }
    let merges: Vec<(String, String)> = match read_merges(&raw_merges) {
        Ok(merges) => merges,
        Err(error) => return Err(error),
    };
    let model: BPE = match build_bpe(list_entries(&tokens), merges) {
        Ok(model) => model,
        Err(error) => {
            let mut reason: String = String::from_str(
                "GGUF vocabulary failed to build a BPE model: ",
            );
            reason.append(error.as_str());
            return Err(malformed(reason));
        },
    };
    let mut inner: Tokenizer = new_tokenizer(model);
    set_byte_level_splitting(&mut inner);
    set_byte_level_joining(&mut inner);
    let controls: Vec<&str> = list_controls(metadata, &tokens);
    proof {
        lemma_controls_are_known(metadata@, texts);
    }
    if controls.len() > 0 {
        add_special_tokens(&mut inner, &controls);
    }
    assert(held_specials(inner) =~= control_tokens(metadata@, texts));
    let specials: Vec<SpecialToken> = list_specials(metadata, &tokens);
    let end_inclusive: u32 = find_highest_id(vocabulary_size, &specials);
    let description = TokenizerMetadata {
        id: artifact_id.clone(),
        artifact: artifact_id,
        family: String::from_str("gguf-gpt2-bpe"),
        revision: String::from_str("1"),
        vocabulary_size,
        added_token_count: truncate_count(added_token_count(&inner)),
        token_id_range: TokenIdRange { start: 0, end_inclusive },
        model_max_length: None,
        special_tokens: specials,
        byte_fallback: false,
        supports_offsets: true,
        supports_token_type_ids: false,
        supports_browser: false,
    };
    assert(description@ =~= described(metadata@, texts, artifact_id@));
    Ok(PreparedTokenizer { tokenizer: GgufTokenizer { inner, metadata: description } })
}

/// Prepares the tokenizer of a bundle's file.
pub fn load_gguf_tokenizer(
    load: ArtifactLoad,
    artifact_id: String,
    expected_vocab_size: Option<u64>,
) -> (tokenizer: Result<PreparedTokenizer, ProductionIngestionError>)
    requires
        load matches ArtifactLoad::Parsed(artifact) ==> controls_fit(artifact.metadata@),
    ensures
        match (load, tokenizer) {
            (ArtifactLoad::Parsed(artifact), Ok(tokenizer)) => built(
                artifact.metadata@,
                artifact_id@,
                expected_vocab_size,
            ) == Ok::<_, ErrorView>(tokenizer@),
            (ArtifactLoad::Parsed(artifact), Err(error)) => built(
                artifact.metadata@,
                artifact_id@,
                expected_vocab_size,
            ) == Err::<TokenizerView, _>(error@),
            (_, Ok(_)) => false,
            (_, Err(error)) => load_defect(load) == Some(error@),
        },
{
    match loaded_artifact(load) {
        Ok(artifact) => GgufTokenizer::from_gguf_metadata(
            &artifact.metadata,
            artifact_id,
            expected_vocab_size,
        ),
        Err(error) => Err(error),
    }
}

/// Up to two to the power 32 tokens, no two share an identifier.
proof fn lemma_identifiers_differ(tokens: Seq<Seq<char>>)
    requires
        tokens.len() <= 0x1_0000_0000,
    ensures
        token_vocabulary(tokens).is_injective(),
{
    let vocabulary = token_vocabulary(tokens);
    lemma_vocabulary(tokens);
    assert forall|one: Seq<char>, other: Seq<char>|
        one != other && vocabulary.contains_key(one) && vocabulary.contains_key(
            other,
        ) implies #[trigger] vocabulary[one] != #[trigger] vocabulary[other] by {
        let i = choose|at: int|
            0 <= at < tokens.len() && tokens[at] == one && vocabulary[one]
                == #[trigger] low_bits(at as nat);
        let j = choose|at: int|
            0 <= at < tokens.len() && tokens[at] == other && vocabulary[other]
                == #[trigger] low_bits(at as nat);
    }
}

/// The identifiers of a tokenizer with fewer than two to the power 32 tokens: no two tokens
/// share one, each is that of a row of the embedding table, and each lies in the range that
/// decoding accepts.
pub proof fn identifiers_stay_in_range(
    metadata: MetadataView,
    artifact_id: Seq<char>,
    expected: Option<u64>,
)
    requires
        declared_tokens(metadata).len() <= u32::MAX,
    ensures
        built(metadata, artifact_id, expected) matches Ok(tokenizer) ==> {
            &&& tokenizer.vocabulary.is_injective()
            &&& tokenizer.description.vocabulary_size == declared_tokens(metadata).len()
            &&& expected matches Some(rows) ==> tokenizer.description.vocabulary_size <= rows
            &&& forall|id: u32| #[trigger]
                tokenizer.vocabulary.contains_value(id) ==> id
                    < tokenizer.description.vocabulary_size && in_range(
                    tokenizer.description.token_id_range,
                    id,
                )
        },
{
    if let Ok(tokenizer) = built(metadata, artifact_id, expected) {
        let tokens = declared_tokens(metadata);
        let vocabulary = token_vocabulary(tokens);
        lemma_vocabulary(tokens);
        lemma_highest_id(
            tokenizer.description.vocabulary_size,
            declared_specials(metadata, tokens),
        );
        lemma_identifiers_differ(tokens);
        assert forall|id: u32| #[trigger] vocabulary.contains_value(id) implies id
            < tokenizer.description.vocabulary_size by {
            let token = choose|token: Seq<char>| #[trigger]
                vocabulary.dom().contains(token) && vocabulary[token] == id;
            assert(vocabulary.contains_key(token));
            let at = choose|at: int|
                0 <= at < tokens.len() && tokens[at] == token && vocabulary[token]
                    == #[trigger] low_bits(at as nat);
        }
    }
}

/// The highest identifier is not below that of the last token, nor below that of any special
/// token.
proof fn lemma_highest_id(vocabulary_size: u32, specials: Seq<SpecialView>)
    ensures
        highest_id(vocabulary_size, specials) >= vocabulary_size - 1,
        forall|at: int|
            0 <= at < specials.len() ==> (#[trigger] specials[at]).id <= highest_id(
                vocabulary_size,
                specials,
            ),
    decreases specials.len(),
{
    if specials.len() > 0 {
        let shorter = specials.drop_last();
        lemma_highest_id(vocabulary_size, shorter);
        assert forall|at: int| 0 <= at < specials.len() implies (#[trigger] specials[at]).id
            <= highest_id(vocabulary_size, specials) by {
            if at < shorter.len() {
                assert(specials[at] == shorter[at]);
            }
        }
    }
}

/// Decoding takes identifiers exactly where all of them lie in the range.
pub proof fn decoding_accepts_the_range(range: TokenIdRange, ids: Seq<u32>)
    ensures
        first_outside(range, ids) is None <==> forall|at: int|
            0 <= at < ids.len() ==> in_range(range, #[trigger] ids[at]),
        first_outside(range, ids) matches Some(id) ==> ids.contains(id) && !in_range(range, id),
    decreases ids.len(),
{
    if ids.len() > 0 {
        let rest = ids.skip(1);
        decoding_accepts_the_range(range, rest);
        if in_range(range, ids[0]) {
            if forall|at: int| 0 <= at < rest.len() ==> in_range(range, #[trigger] rest[at]) {
                assert forall|at: int| 0 <= at < ids.len() implies in_range(
                    range,
                    #[trigger] ids[at],
                ) by {
                    if at > 0 {
                        assert(ids[at] == rest[at - 1]);
                    }
                }
            } else {
                let at = choose|at: int|
                    0 <= at < rest.len() && !in_range(range, #[trigger] rest[at]);
                assert(ids[at + 1] == rest[at]);
            }
            if let Some(id) = first_outside(range, rest) {
                let at = choose|at: int| 0 <= at < rest.len() && rest[at] == id;
                assert(ids[at + 1] == id);
            }
        }
    }
}

/// What encoding gives, decoding takes: identifiers of tokens in the vocabulary are never
/// refused, for a tokenizer with fewer than two to the power 32 tokens.
pub proof fn encoded_identifiers_can_be_decoded(
    metadata: MetadataView,
    artifact_id: Seq<char>,
    expected: Option<u64>,
    ids: Seq<u32>,
)
    requires
        declared_tokens(metadata).len() <= u32::MAX,
        built(metadata, artifact_id, expected) matches Ok(tokenizer) && forall|at: int|
            0 <= at < ids.len() ==> tokenizer.vocabulary.contains_value(#[trigger] ids[at]),
    ensures
        built(metadata, artifact_id, expected) matches Ok(tokenizer) ==> first_outside(
            tokenizer.description.token_id_range,
            ids,
        ) is None,
{
    identifiers_stay_in_range(metadata, artifact_id, expected);
    let tokenizer = built(metadata, artifact_id, expected)->Ok_0;
    decoding_accepts_the_range(tokenizer.description.token_id_range, ids);
    assert forall|at: int| 0 <= at < ids.len() implies in_range(
        tokenizer.description.token_id_range,
        #[trigger] ids[at],
    ) by {
        assert(tokenizer.vocabulary.contains_value(ids[at]));
    }
}

/// Whether an identifier is the place of a control token in the lists of metadata.
pub open spec fn is_control_id(metadata: MetadataView, id: u32) -> bool {
    match metadata.get("tokenizer.ggml.token_type"@) {
        Some(GgufMetadataValue::Array(types)) => id < types@.len() && id < declared_tokens(
            metadata,
        ).len() && types@[id as int] == GgufMetadataValue::Int32(CONTROL_TOKEN_TYPE),
        _ => false,
    }
}

/// Identifiers without those of control tokens.
pub open spec fn without_controls(metadata: MetadataView, token_ids: Seq<u32>) -> Seq<u32> {
    token_ids.filter(|id: u32| !is_control_id(metadata, id))
}

/// The tokens under a control type are those at the places of control tokens.
proof fn lemma_controls_by_place(
    types: Seq<GgufMetadataValue>,
    tokens: Seq<Seq<char>>,
    token: Seq<char>,
)
    ensures
        controls_among(types, tokens).contains(token) <==> exists|at: int|
            0 <= at < types.len() && at < tokens.len() && #[trigger] types[at]
                == GgufMetadataValue::Int32(CONTROL_TOKEN_TYPE) && tokens[at] == token,
    decreases types.len(),
{
    if types.len() > 0 {
        let shorter = types.drop_last();
        let last = types.len() - 1;
        let before = controls_among(shorter, tokens);
        let all = controls_among(types, tokens);
        lemma_controls_by_place(shorter, tokens, token);
        if all.contains(token) {
            let i = choose|i: int| 0 <= i < all.len() && all[i] == token;
            if i < before.len() {
                assert(before[i] == token);
                let at = choose|at: int|
                    0 <= at < shorter.len() && at < tokens.len() && #[trigger] shorter[at]
                        == GgufMetadataValue::Int32(CONTROL_TOKEN_TYPE) && tokens[at] == token;
                assert(types[at] == shorter[at]);
            } else {
                assert(types[last] == types.last());
            }
        }
        if exists|at: int|
            0 <= at < types.len() && at < tokens.len() && #[trigger] types[at]
                == GgufMetadataValue::Int32(CONTROL_TOKEN_TYPE) && tokens[at] == token {
            let at = choose|at: int|
                0 <= at < types.len() && at < tokens.len() && #[trigger] types[at]
                    == GgufMetadataValue::Int32(CONTROL_TOKEN_TYPE) && tokens[at] == token;
            if at < last {
                assert(shorter[at] == types[at]);
                let i = choose|i: int| 0 <= i < before.len() && before[i] == token;
                assert(all[i] == token);
            } else {
                assert(all[all.len() - 1] == token);
            }
        }
    }
}

/// The identifiers of tokens are those of the tokens that have a text.
pub(crate) proof fn lemma_identifiers(vocabulary: Map<Seq<char>, u32>, tokens: Seq<Seq<char>>, id: u32)
    ensures
        identifiers(vocabulary, tokens).contains(id) <==> exists|token: Seq<char>| #[trigger]
            tokens.contains(token) && token.len() > 0 && vocabulary[token] == id,
    decreases tokens.len(),
{
    if tokens.len() > 0 {
        let shorter = tokens.drop_last();
        let before = identifiers(vocabulary, shorter);
        let all = identifiers(vocabulary, tokens);
        lemma_identifiers(vocabulary, shorter, id);
        if all.contains(id) {
            let i = choose|i: int| 0 <= i < all.len() && all[i] == id;
            if i < before.len() {
                assert(before[i] == id);
                let token = choose|token: Seq<char>| #[trigger]
                    shorter.contains(token) && token.len() > 0 && vocabulary[token] == id;
                let at = choose|at: int| 0 <= at < shorter.len() && shorter[at] == token;
                assert(tokens[at] == token);
                assert(tokens.contains(token));
            } else {
                assert(tokens[tokens.len() - 1] == tokens.last());
                assert(tokens.contains(tokens.last()));
            }
        }
        if exists|token: Seq<char>| #[trigger]
            tokens.contains(token) && token.len() > 0 && vocabulary[token] == id {
            let token = choose|token: Seq<char>| #[trigger]
                tokens.contains(token) && token.len() > 0 && vocabulary[token] == id;
            let at = choose|at: int| 0 <= at < tokens.len() && tokens[at] == token;
            if at < shorter.len() {
                assert(shorter[at] == token);
                assert(shorter.contains(token));
                let i = choose|i: int| 0 <= i < before.len() && before[i] == id;
                assert(all[i] == id);
            } else {
                assert(all[all.len() - 1] == id);
            }
        }
    }
}

/// Filtering what was filtered changes nothing.
proof fn lemma_filtered_twice(ids: Seq<u32>, keep: spec_fn(u32) -> bool)
    ensures
        ids.filter(keep).filter(keep) == ids.filter(keep),
    decreases ids.len(),
{
    reveal(Seq::filter);
    if ids.len() > 0 {
        let shorter = ids.drop_last();
        lemma_filtered_twice(shorter, keep);
        if keep(ids.last()) {
            assert(shorter.filter(keep).push(ids.last()).drop_last() =~= shorter.filter(keep));
        }
    }
}

/// Control tokens leave no trace in a text that is decoded without special tokens: the text is
/// that of the identifiers without those of control tokens, whether special tokens are skipped
/// then or not, and no other identifier is dropped. Identifiers that were in the range stay in
/// it.
///
/// The tokens are distinct and have a text: the engine knows a control token by its text, and
/// of two tokens with one text only the last has an identifier. And there is an identifier for
/// each: where two tokens share one, which of them it is decoded to is the engine's choice.
pub proof fn skipped_control_tokens_leave_no_trace(
    metadata: MetadataView,
    artifact_id: Seq<char>,
    expected: Option<u64>,
    ids: Seq<u32>,
)
    requires
        declared_tokens(metadata).len() <= 0x1_0000_0000,
        declared_tokens(metadata).no_duplicates(),
        forall|at: int|
            0 <= at < declared_tokens(metadata).len() ==> (#[trigger] declared_tokens(
                metadata,
            )[at]).len() > 0,
    ensures
        built(metadata, artifact_id, expected) matches Ok(tokenizer) ==> {
            let rest = without_controls(metadata, ids);
            let range = tokenizer.description.token_id_range;
            &&& tokenizer.vocabulary.is_injective()
            &&& plain_ids(tokenizer.vocabulary, tokenizer.specials, ids) == rest
            &&& decoded_text(tokenizer, ids, true) == decoded_text(tokenizer, rest, true)
            &&& decoded_text(tokenizer, ids, true) == decoded_text(tokenizer, rest, false)
            &&& first_outside(range, ids) is None ==> first_outside(range, rest) is None
        },
{
    if let Ok(tokenizer) = built(metadata, artifact_id, expected) {
        let tokens = declared_tokens(metadata);
        let vocabulary = token_vocabulary(tokens);
        let controls = control_tokens(metadata, tokens);
        let range = tokenizer.description.token_id_range;
        lemma_identifiers_differ(tokens);
        lemma_vocabulary(tokens);
        lemma_controls_are_known(metadata, tokens);
        assert forall|at: int| 0 <= at < tokens.len() implies vocabulary[#[trigger] tokens[at]]
            == at by {
            assert(vocabulary.contains_key(tokens[at]));
            let place = choose|place: int|
                0 <= place < tokens.len() && tokens[place] == tokens[at] && vocabulary[tokens[at]]
                    == #[trigger] low_bits(place as nat);
            assert(place == at);
        }
        assert forall|id: u32| #[trigger]
            identifiers(vocabulary, controls).contains(id) == is_control_id(metadata, id) by {
            lemma_identifiers(vocabulary, controls, id);
            if let Some(GgufMetadataValue::Array(types)) = metadata.get(
                "tokenizer.ggml.token_type"@,
            ) {
                if identifiers(vocabulary, controls).contains(id) {
                    let token = choose|token: Seq<char>| #[trigger]
                        controls.contains(token) && token.len() > 0 && vocabulary[token] == id;
                    lemma_controls_by_place(types@, tokens, token);
                    let at = choose|at: int|
                        0 <= at < types@.len() && at < tokens.len() && #[trigger] types@[at]
                            == GgufMetadataValue::Int32(CONTROL_TOKEN_TYPE) && tokens[at] == token;
                    assert(at == id);
                }
                if is_control_id(metadata, id) {
                    let token = tokens[id as int];
                    lemma_controls_by_place(types@, tokens, token);
                    assert(types@[id as int] == GgufMetadataValue::Int32(CONTROL_TOKEN_TYPE));
                    assert(controls.contains(token));
                }
            }
        }
        let plain = |id: u32| !identifiers(vocabulary, controls).contains(id);
        assert(plain =~= (|id: u32| !is_control_id(metadata, id)));
        lemma_filtered_twice(ids, plain);
        let rest = without_controls(metadata, ids);
        if first_outside(range, ids) is None {
            decoding_accepts_the_range(range, ids);
            decoding_accepts_the_range(range, rest);
            assert forall|at: int| 0 <= at < rest.len() implies in_range(
                range,
                #[trigger] rest[at],
            ) by {
                assert(rest.contains(rest[at]));
                ids.lemma_filter_contains_rev(plain, rest[at]);
            }
        }
    }
}

/// An encoding without a limit, cut down to one: unchanged where it meets the limit, refused
/// where nothing may give way, otherwise cut by the policy, the offsets at the same places as
/// the identifiers.
pub open spec fn cut(whole: EncodeView, policy: TruncationPolicy, limit: usize) -> Result<
    EncodeView,
    TokenizerErrorView,
> {
    if whole.token_ids.len() <= limit {
        Ok(whole)
    } else if policy == TruncationPolicy::Never {
        Err(TokenizerErrorView::PromptTooLong(whole.token_ids.len(), limit as nat))
    } else {
        Ok(
            EncodeView {
                token_ids: truncated(whole.token_ids, policy, limit as nat),
                token_count: limit as nat,
                offsets: match whole.offsets {
                    Some(offsets) => Some(truncated(offsets, policy, limit as nat)),
                    None => None,
                },
                attention_mask: Some(Seq::new(limit as nat, |at: int| 1u8)),
                token_type_ids: None,
            },
        )
    }
}

/// Encoding a text under a limit gives what encoding it without one gives, cut down to the
/// limit. The offsets of the whole, where there are any, are as many as its identifiers, as
/// [`GgufTokenizer::encode`] promises.
pub proof fn limits_cut_the_whole(
    result: Result<(Seq<u32>, Seq<(usize, usize)>), Seq<char>>,
    return_offsets: bool,
    policy: TruncationPolicy,
    limit: usize,
)
    requires
        encoded_by(result, return_offsets, policy, None) matches Ok(whole) ==> (
        whole.offsets matches Some(offsets) ==> offsets.len() == whole.token_ids.len()),
    ensures
        match encoded_by(result, return_offsets, policy, None) {
            Ok(whole) => encoded_by(result, return_offsets, policy, Some(limit)) == cut(
                whole,
                policy,
                limit,
            ),
            Err(error) => encoded_by(result, return_offsets, policy, Some(limit)) == Err::<
                EncodeView,
                _,
            >(error),
        },
{
    if let Ok((ids, spans)) = result {
        if ids.len() > limit && policy != TruncationPolicy::Never {
            truncation_meets_the_limit(ids, policy, limit as nat);
            let whole = encoded_by(result, return_offsets, policy, None)->Ok_0;
            let part = encoded_by(result, return_offsets, policy, Some(limit))->Ok_0;
            let goal = cut(whole, policy, limit)->Ok_0;
            assert(part.attention_mask->Some_0 =~= goal.attention_mask->Some_0);
            if return_offsets {
                assert(part.offsets->Some_0 =~= goal.offsets->Some_0);
            }
            assert(part =~= goal);
        }
    }
}

/// The special tokens of a tokenizer are tokens of its vocabulary's list, each under the place
/// of its text and in the range, and there is at most one for each purpose.
pub proof fn special_tokens_are_sound(
    metadata: MetadataView,
    artifact_id: Seq<char>,
    expected: Option<u64>,
)
    ensures
        built(metadata, artifact_id, expected) matches Ok(tokenizer) ==> {
            let specials = tokenizer.description.special_tokens;
            let tokens = declared_tokens(metadata);
            &&& forall|at: int|
                0 <= at < specials.len() ==> {
                    &&& (#[trigger] specials[at]).id < tokens.len()
                    &&& specials[at].text == tokens[specials[at].id as int]
                    &&& in_range(tokenizer.description.token_id_range, specials[at].id)
                }
            &&& forall|i: int, j: int|
                0 <= i < j < specials.len() ==> (#[trigger] specials[i]).kind != (
                #[trigger] specials[j]).kind
        },
{
    if let Ok(tokenizer) = built(metadata, artifact_id, expected) {
        let tokens = declared_tokens(metadata);
        lemma_highest_id(
            tokenizer.description.vocabulary_size,
            declared_specials(metadata, tokens),
        );
    }
}

} // verus!
