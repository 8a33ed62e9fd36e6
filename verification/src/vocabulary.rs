//! What a file's lists of tokens and merges come to.

use vstd::prelude::*;
use vstd::utf8::encode_utf8;

use crate::declared::{declares, declares_text};
use crate::engine::{decoding, identifiers, missing_token, total_bytes, MAX_TEXT_BYTES};
use crate::error::{ErrorView, IngestionErrorKind};
use crate::metadata::{texts_among, texts_at, uint_at, GgufMetadataValue, MetadataView};
use crate::naming::lemma_split_rejoins;
use crate::text::{decimal_text, split_at_first};
use crate::token_metadata::{SpecialTokenKind, SpecialView, TokenIdRange, TokenizerErrorView};
use crate::tokenizer::{built, control_tokens, controls_among, controls_fit, declared_tokens};
use crate::tokenizer::{decoded, decoded_text, description_refusal, encoded_by, first_outside};
use crate::tokenizer::{highest_id, joined_bytes, lemma_identifiers, low_bits, special_for};
use crate::tokenizer::{split_merges, token_entries, token_vocabulary};
use crate::tokenizer::{DescriptionOutcome, TokenizerView};
use crate::truncation::{EncodeView, TruncationPolicy};

verus! {

/// Whether metadata lists texts under a key: an array stands there, and these are its texts.
pub open spec fn lists(metadata: MetadataView, key: Seq<char>, texts: Seq<Seq<char>>) -> bool {
    &&& metadata.contains_key(key)
    &&& metadata[key] is Array
    &&& texts_among(metadata[key]->Array_0@) == texts
}

/// Whether a merge is what a text says: its two sides, the left one without a space, with one
/// space between them.
pub open spec fn is_merge_of(merge: (Seq<char>, Seq<char>), text: Seq<char>) -> bool {
    &&& merge.0 + " "@ + merge.1 == text
    &&& !merge.0.contains(' ')
}

/// Splitting at a space keeps both sides, whole.
proof fn lemma_split_at_space(text: Seq<char>)
    ensures
        split_at_first(text, ' ') is Some <==> text.contains(' '),
        split_at_first(text, ' ') matches Some(sides) ==> is_merge_of(sides, text),
{
    reveal_strlit(" ");
    assert(" "@ =~= seq![' ']);
    if split_at_first(text, ' ') is Some {
        lemma_split_rejoins(text, ' ');
    }
}

/// Splitting merges keeps their number and their order.
proof fn lemma_merges(raw: Seq<Seq<char>>)
    ensures
        split_merges(raw) is Ok <==> forall|at: int|
            0 <= at < raw.len() ==> (#[trigger] raw[at]).contains(' '),
        split_merges(raw) matches Ok(merges) ==> merges.len() == raw.len() && forall|at: int|
            0 <= at < raw.len() ==> is_merge_of(#[trigger] merges[at], raw[at]),
        split_merges(raw) matches Err((kind, _)) ==> kind == IngestionErrorKind::MalformedMetadata,
    decreases raw.len(),
{
    if raw.len() > 0 {
        let shorter = raw.drop_last();
        let last = raw.len() - 1;
        lemma_merges(shorter);
        lemma_split_at_space(raw.last());
        assert(raw[last] == raw.last());
        if forall|at: int| 0 <= at < raw.len() ==> (#[trigger] raw[at]).contains(' ') {
            assert forall|at: int| 0 <= at < shorter.len() implies (#[trigger] shorter[at]).contains(
                ' ',
            ) by {
                assert(shorter[at] == raw[at]);
            }
        }
        if let Ok(merges) = split_merges(raw) {
            let before = split_merges(shorter)->Ok_0;
            assert forall|at: int| 0 <= at < raw.len() implies (#[trigger] raw[at]).contains(' ')
                && is_merge_of(merges[at], raw[at]) by {
                if at < last {
                    assert(shorter[at] == raw[at]);
                    assert(merges[at] == before[at]);
                }
            }
            assert forall|at: int| 0 <= at < raw.len() implies is_merge_of(
                #[trigger] merges[at],
                raw[at],
            ) by {
                assert(raw[at].contains(' '));
            }
        }
    }
}

/// A tokenizer has as many merges as its file lists, and of every rank the one that stands there:
/// its two sides, with one space between them, are the text of the list.
pub proof fn merges_are_those_listed(
    metadata: MetadataView,
    artifact_id: Seq<char>,
    expected: Option<u64>,
    texts: Seq<Seq<char>>,
)
    requires
        lists(metadata, "tokenizer.ggml.merges"@, texts),
    ensures
        built(metadata, artifact_id, expected) matches Ok(tokenizer) ==> {
            &&& tokenizer.merges.len() == texts.len()
            &&& forall|rank: int|
                0 <= rank < texts.len() ==> {
                    &&& (#[trigger] tokenizer.merges[rank]).0 + " "@ + tokenizer.merges[rank].1
                        == texts[rank]
                    &&& !tokenizer.merges[rank].0.contains(' ')
                }
        },
{
    lemma_merges(texts);
    if let Ok(tokenizer) = built(metadata, artifact_id, expected) {
        assert forall|rank: int| 0 <= rank < texts.len() implies {
            &&& (#[trigger] tokenizer.merges[rank]).0 + " "@ + tokenizer.merges[rank].1
                == texts[rank]
            &&& !tokenizer.merges[rank].0.contains(' ')
        } by {
            assert(is_merge_of(tokenizer.merges[rank], texts[rank]));
        }
    }
}

/// The identifier of a token is its last place, in 32 bits.
proof fn lemma_last_places(tokens: Seq<Seq<char>>)
    ensures
        forall|token: Seq<char>| #[trigger]
            token_vocabulary(tokens).contains_key(token) <==> tokens.contains(token),
        forall|at: int| #[trigger]
            is_last_place(tokens, at) ==> token_vocabulary(tokens)[tokens[at]] == at
                % 0x1_0000_0000,
    decreases tokens.len(),
{
    if tokens.len() > 0 {
        let shorter = tokens.drop_last();
        let last = tokens.len() - 1;
        lemma_last_places(shorter);
        assert(token_entries(tokens).drop_last() =~= token_entries(shorter));
        let vocabulary = token_vocabulary(tokens);
        assert(vocabulary == token_vocabulary(shorter).insert(tokens[last], low_bits(last as nat)));
        assert forall|token: Seq<char>| #[trigger]
            vocabulary.contains_key(token) <==> tokens.contains(token) by {
            if token_vocabulary(shorter).contains_key(token) {
                let at = choose|at: int| 0 <= at < shorter.len() && shorter[at] == token;
                assert(tokens[at] == token);
            }
            if tokens.contains(token) && token != tokens[last] {
                let at = choose|at: int| 0 <= at < tokens.len() && tokens[at] == token;
                assert(shorter[at] == token);
            }
            if token == tokens[last] {
                assert(tokens.contains(token));
            }
        }
        assert forall|at: int| #[trigger] is_last_place(tokens, at) implies vocabulary[tokens[at]]
            == at % 0x1_0000_0000 by {
            if at < last {
                assert(tokens[at] != tokens[last]);
                assert(shorter[at] == tokens[at]);
                assert(is_last_place(shorter, at)) by {
                    assert forall|later: int| at < later < shorter.len() implies #[trigger]
                        shorter[later] != shorter[at] by {
                        assert(shorter[later] == tokens[later]);
                    }
                }
            }
        }
    }
}

/// Whether a place is the last at which its token is listed.
pub open spec fn is_last_place(tokens: Seq<Seq<char>>, at: int) -> bool {
    &&& 0 <= at < tokens.len()
    &&& forall|later: int| at < later < tokens.len() ==> #[trigger] tokens[later] != tokens[at]
}

/// The vocabulary of a tokenizer has the tokens that its file lists, and no others. Each has the
/// last place at which it is listed as its identifier, in 32 bits.
pub proof fn tokens_are_identified_by_place(
    metadata: MetadataView,
    artifact_id: Seq<char>,
    expected: Option<u64>,
    tokens: Seq<Seq<char>>,
)
    requires
        lists(metadata, "tokenizer.ggml.tokens"@, tokens),
    ensures
        built(metadata, artifact_id, expected) matches Ok(tokenizer) ==> {
            &&& forall|token: Seq<char>| #[trigger]
                tokenizer.vocabulary.contains_key(token) <==> tokens.contains(token)
            &&& forall|at: int| #[trigger]
                is_last_place(tokens, at) ==> tokenizer.vocabulary[tokens[at]] == at
                    % 0x1_0000_0000
        },
{
    lemma_last_places(tokens);
}

/// Whether a place is that of a control token: its type is the number three, of 32 bits.
pub open spec fn is_control_place(types: Seq<GgufMetadataValue>, at: int) -> bool {
    types[at] is Int32 && types[at]->Int32_0 == 3
}

/// The places of control tokens, in their order, among those that have a type and a token.
pub open spec fn control_places(types: Seq<GgufMetadataValue>, count: int) -> Seq<int> {
    Seq::new(
        if types.len() < count {
            types.len()
        } else {
            count as nat
        },
        |at: int| at,
    ).filter(|at: int| is_control_place(types, at))
}

proof fn lemma_control_places(types: Seq<GgufMetadataValue>, tokens: Seq<Seq<char>>)
    ensures
        controls_among(types, tokens) == control_places(types, tokens.len() as int).map_values(
            |at: int| tokens[at],
        ),
    decreases types.len(),
{
    let count = tokens.len() as int;
    let keep = |at: int| is_control_place(types, at);
    if types.len() == 0 {
        assert(Seq::new(0, |at: int| at) =~= Seq::<int>::empty());
        reveal_with_fuel(Seq::filter, 1);
        assert(controls_among(types, tokens) =~= control_places(types, count).map_values(
            |at: int| tokens[at],
        ));
    } else {
        let shorter = types.drop_last();
        let last = types.len() - 1;
        lemma_control_places(shorter, tokens);
        let keep_before = |at: int| is_control_place(shorter, at);
        if last < count {
            let before = Seq::new(last as nat, |at: int| at);
            let all = Seq::new((last + 1) as nat, |at: int| at);
            assert(all.drop_last() =~= before);
            lemma_same_filter(before, keep, keep_before);
            reveal_with_fuel(Seq::filter, 1);
            assert(control_places(shorter, count) == before.filter(keep));
            assert(control_places(types, count) == if keep(last) {
                before.filter(keep).push(last)
            } else {
                before.filter(keep)
            });
        } else {
            let places = Seq::new(count as nat, |at: int| at);
            lemma_same_filter(places, keep, keep_before);
        }
        assert(types.last() == types[last]);
        assert(controls_among(types, tokens) =~= control_places(types, count).map_values(
            |at: int| tokens[at],
        ));
    }
}

/// Filters that agree on what is filtered keep the same.
proof fn lemma_same_filter(items: Seq<int>, one: spec_fn(int) -> bool, other: spec_fn(int) -> bool)
    requires
        forall|at: int| 0 <= at < items.len() ==> one(#[trigger] items[at]) == other(items[at]),
    ensures
        items.filter(one) == items.filter(other),
    decreases items.len(),
{
    reveal_with_fuel(Seq::filter, 1);
    if items.len() > 0 {
        let shorter = items.drop_last();
        assert forall|at: int| 0 <= at < shorter.len() implies one(#[trigger] shorter[at]) == other(
            shorter[at],
        ) by {
            assert(shorter[at] == items[at]);
        }
        lemma_same_filter(shorter, one, other);
        assert(one(items[items.len() - 1]) == other(items[items.len() - 1]));
    }
}

/// The special tokens that a tokenizer's engine knows are the control tokens of its file, in
/// their order: those tokens whose type in the file's list of types is the number three. A file
/// that lists no types has none.
pub proof fn control_tokens_are_those_typed(
    metadata: MetadataView,
    artifact_id: Seq<char>,
    expected: Option<u64>,
    tokens: Seq<Seq<char>>,
)
    requires
        lists(metadata, "tokenizer.ggml.tokens"@, tokens),
    ensures
        ({
            let key = "tokenizer.ggml.token_type"@;
            built(metadata, artifact_id, expected) matches Ok(tokenizer) ==> {
                &&& metadata.contains_key(key) && metadata[key] is Array ==> tokenizer.specials
                    == control_places(
                    metadata[key]->Array_0@,
                    tokens.len() as int,
                ).map_values(|at: int| tokens[at])
                &&& !(metadata.contains_key(key) && metadata[key] is Array)
                    ==> tokenizer.specials.len() == 0
            }
        }),
{
    let key = "tokenizer.ggml.token_type"@;
    if metadata.contains_key(key) && metadata[key] is Array {
        lemma_control_places(metadata[key]->Array_0@, tokens);
    }
}

/// Whether tokens have everything that merges ask for: the two sides of each, and the two
/// together.
pub open spec fn has_merged(tokens: Seq<Seq<char>>, merge: (Seq<char>, Seq<char>)) -> bool {
    tokens.contains(merge.0) && tokens.contains(merge.1) && tokens.contains(merge.0 + merge.1)
}

proof fn lemma_nothing_missing(
    vocabulary: Map<Seq<char>, u32>,
    merges: Seq<(Seq<char>, Seq<char>)>,
)
    ensures
        missing_token(vocabulary, merges) is None <==> forall|at: int|
            0 <= at < merges.len() ==> {
                &&& vocabulary.contains_key((#[trigger] merges[at]).0)
                &&& vocabulary.contains_key(merges[at].1)
                &&& vocabulary.contains_key(merges[at].0 + merges[at].1)
            },
    decreases merges.len(),
{
    if merges.len() > 0 {
        let rest = merges.skip(1);
        lemma_nothing_missing(vocabulary, rest);
        assert forall|at: int| 0 <= at < rest.len() implies #[trigger] rest[at] == merges[at + 1] by {}
        if missing_token(vocabulary, merges) is None {
            assert forall|at: int| 0 <= at < merges.len() implies {
                &&& vocabulary.contains_key((#[trigger] merges[at]).0)
                &&& vocabulary.contains_key(merges[at].1)
                &&& vocabulary.contains_key(merges[at].0 + merges[at].1)
            } by {
                if at > 0 {
                    assert(merges[at] == rest[at - 1]);
                }
            }
        }
        if forall|at: int|
            0 <= at < merges.len() ==> {
                &&& vocabulary.contains_key((#[trigger] merges[at]).0)
                &&& vocabulary.contains_key(merges[at].1)
                &&& vocabulary.contains_key(merges[at].0 + merges[at].1)
            } {
            assert(vocabulary.contains_key(merges[0].0));
            assert forall|at: int| 0 <= at < rest.len() implies {
                &&& vocabulary.contains_key((#[trigger] rest[at]).0)
                &&& vocabulary.contains_key(rest[at].1)
                &&& vocabulary.contains_key(rest[at].0 + rest[at].1)
            } by {
                assert(rest[at] == merges[at + 1]);
            }
        }
    }
}

/// When a tokenizer is owed: where the file says that its model is `gpt2`, it lists at least one
/// token and, counted in 32 bits, no more than there are rows for, and every text in its list of
/// merges is two tokens, with a space between them, that make a third.
#[verifier::rlimit(50)]
pub proof fn sound_vocabularies_are_built(
    metadata: MetadataView,
    artifact_id: Seq<char>,
    expected: Option<u64>,
    tokens: Seq<Seq<char>>,
    texts: Seq<Seq<char>>,
    merges: Seq<(Seq<char>, Seq<char>)>,
)
    requires
        lists(metadata, "tokenizer.ggml.tokens"@, tokens),
        lists(metadata, "tokenizer.ggml.merges"@, texts),
        merges.len() == texts.len(),
        forall|rank: int|
            0 <= rank < texts.len() && (#[trigger] texts[rank]).contains(' ') ==> is_merge_of(
                merges[rank],
                texts[rank],
            ),
    ensures
        built(metadata, artifact_id, expected) is Ok <==> {
            &&& declares_text(metadata, "tokenizer.ggml.model"@, "gpt2"@)
            &&& tokens.len() > 0
            &&& expected matches Some(rows) ==> tokens.len() % 0x1_0000_0000 <= rows
            &&& forall|rank: int|
                0 <= rank < texts.len() ==> (#[trigger] texts[rank]).contains(' ') && has_merged(
                    tokens,
                    merges[rank],
                )
        },
{
    lemma_merges(texts);
    lemma_last_places(tokens);
    let vocabulary = token_vocabulary(tokens);
    let all = forall|rank: int| 0 <= rank < texts.len() ==> (#[trigger] texts[rank]).contains(' ');
    if all {
        let split = split_merges(texts)->Ok_0;
        lemma_nothing_missing(vocabulary, split);
        assert(split =~= merges) by {
            assert forall|rank: int| 0 <= rank < texts.len() implies split[rank] == merges[rank] by {
                assert(texts[rank].contains(' '));
                assert(is_merge_of(split[rank], texts[rank]));
                lemma_merge_is_one(split[rank], merges[rank], texts[rank]);
            }
        }
        if forall|rank: int|
            0 <= rank < texts.len() ==> (#[trigger] texts[rank]).contains(' ') && has_merged(
                tokens,
                merges[rank],
            ) {
            assert forall|at: int| 0 <= at < merges.len() implies {
                &&& vocabulary.contains_key((#[trigger] merges[at]).0)
                &&& vocabulary.contains_key(merges[at].1)
                &&& vocabulary.contains_key(merges[at].0 + merges[at].1)
            } by {
                assert(texts[at].contains(' '));
            }
        }
    }
}

/// A text is that of one merge only.
proof fn lemma_merge_is_one(
    one: (Seq<char>, Seq<char>),
    other: (Seq<char>, Seq<char>),
    text: Seq<char>,
)
    requires
        is_merge_of(one, text),
        is_merge_of(other, text),
    ensures
        one == other,
{
    reveal_strlit(" ");
    assert(" "@ =~= seq![' ']);
    let i = one.0.len() as int;
    let j = other.0.len() as int;
    assert(text[i] == ' ' && text[j] == ' ');
    if i < j {
        assert(other.0[i] == text[i]);
    }
    if j < i {
        assert(one.0[j] == text[j]);
    }
    assert(one.0 =~= text.take(i) && other.0 =~= text.take(j));
    assert(one.1 =~= text.skip(i + 1) && other.1 =~= text.skip(j + 1));
}

/// What is refused, and as what: a model of another kind is not supported; whatever else is wrong
/// is malformed metadata, a list of tokens or of merges that is not there among it.
pub proof fn unsound_vocabularies_are_refused(
    metadata: MetadataView,
    artifact_id: Seq<char>,
    expected: Option<u64>,
)
    ensures
        ({
            let model = "tokenizer.ggml.model"@;
            let tokens = "tokenizer.ggml.tokens"@;
            let merges = "tokenizer.ggml.merges"@;
            let named = metadata.contains_key(model) && metadata[model] is String;
            let gpt2 = declares_text(metadata, model, "gpt2"@);
            &&& !named || gpt2 ==> (built(metadata, artifact_id, expected) matches Err((kind, _))
                ==> kind == IngestionErrorKind::MalformedMetadata)
            &&& named && !gpt2 ==> (built(metadata, artifact_id, expected) matches Err((kind, _))
                && kind == IngestionErrorKind::UnsupportedFormat)
            &&& !named ==> built(metadata, artifact_id, expected) is Err
            &&& !(metadata.contains_key(tokens) && metadata[tokens] is Array) ==> built(
                metadata,
                artifact_id,
                expected,
            ) is Err
            &&& !(metadata.contains_key(merges) && metadata[merges] is Array) ==> built(
                metadata,
                artifact_id,
                expected,
            ) is Err
        }),
{
    if let Some(texts) = texts_at(metadata, "tokenizer.ggml.merges"@) {
        lemma_merges(texts);
    }
}

/// Whether special tokens have one for a purpose exactly where a key declares the place of a
/// token for it: that token then.
pub open spec fn serves(
    specials: Seq<SpecialView>,
    kind: SpecialTokenKind,
    metadata: MetadataView,
    key: Seq<char>,
    tokens: Seq<Seq<char>>,
) -> bool {
    forall|special: SpecialView|
        special.kind == kind ==> (#[trigger] specials.contains(special) <==> declares(
            metadata,
            key,
            special.id as int,
        ) && special.id < tokens.len() && special.text == tokens[special.id as int])
}

proof fn lemma_special(
    kind: SpecialTokenKind,
    metadata: MetadataView,
    key: Seq<char>,
    tokens: Seq<Seq<char>>,
    special: SpecialView,
)
    ensures
        special_for(kind, uint_at(metadata, key), tokens).contains(special) <==> {
            &&& special.kind == kind
            &&& declares(metadata, key, special.id as int)
            &&& special.id < tokens.len()
            &&& special.text == tokens[special.id as int]
        },
{
    let found = special_for(kind, uint_at(metadata, key), tokens);
    if special.kind == kind && declares(metadata, key, special.id as int) && special.id
        < tokens.len() && special.text == tokens[special.id as int] {
        assert(found[0] == special);
    }
}

/// The special tokens that a tokenizer is described with: the one that begins a text, the one
/// that ends it and the one that fills it up, in this order, each where its own key declares the
/// place of a token.
#[verifier::rlimit(50)]
pub proof fn special_tokens_are_those_declared(
    metadata: MetadataView,
    artifact_id: Seq<char>,
    expected: Option<u64>,
    tokens: Seq<Seq<char>>,
)
    requires
        lists(metadata, "tokenizer.ggml.tokens"@, tokens),
    ensures
        built(metadata, artifact_id, expected) matches Ok(tokenizer) ==> {
            let specials = tokenizer.description.special_tokens;
            let bos = "tokenizer.ggml.bos_token_id"@;
            let eos = "tokenizer.ggml.eos_token_id"@;
            let pad = "tokenizer.ggml.padding_token_id"@;
            &&& serves(specials, SpecialTokenKind::Bos, metadata, bos, tokens)
            &&& serves(specials, SpecialTokenKind::Eos, metadata, eos, tokens)
            &&& serves(specials, SpecialTokenKind::Pad, metadata, pad, tokens)
            &&& specials.len() <= 3
            &&& forall|i: int, j: int|
                0 <= i < j < specials.len() ==> {
                    &&& (#[trigger] specials[i]).kind != (#[trigger] specials[j]).kind
                    &&& specials[i].kind != SpecialTokenKind::Pad
                    &&& specials[j].kind != SpecialTokenKind::Bos
                }
        },
{
    if let Ok(tokenizer) = built(metadata, artifact_id, expected) {
        let specials = tokenizer.description.special_tokens;
        let bos = "tokenizer.ggml.bos_token_id"@;
        let eos = "tokenizer.ggml.eos_token_id"@;
        let pad = "tokenizer.ggml.padding_token_id"@;
        let a = special_for(SpecialTokenKind::Bos, uint_at(metadata, bos), tokens);
        let b = special_for(SpecialTokenKind::Eos, uint_at(metadata, eos), tokens);
        let c = special_for(SpecialTokenKind::Pad, uint_at(metadata, pad), tokens);
        assert forall|special: SpecialView| #[trigger]
            specials.contains(special) <==> a.contains(special) || b.contains(special)
                || c.contains(special) by {
            lemma_contains_sum(a, b, special);
            lemma_contains_sum(a + b, c, special);
        }
        assert(serves(specials, SpecialTokenKind::Bos, metadata, bos, tokens)) by {
            assert forall|special: SpecialView|
                special.kind == SpecialTokenKind::Bos implies (#[trigger] specials.contains(
                special,
            ) <==> declares(metadata, bos, special.id as int) && special.id < tokens.len()
                && special.text == tokens[special.id as int]) by {
                lemma_special(SpecialTokenKind::Bos, metadata, bos, tokens, special);
                lemma_special(SpecialTokenKind::Eos, metadata, eos, tokens, special);
                lemma_special(SpecialTokenKind::Bos, metadata, bos, tokens, special);
                lemma_special(SpecialTokenKind::Eos, metadata, eos, tokens, special);
                lemma_special(SpecialTokenKind::Pad, metadata, pad, tokens, special);
            }
        }
        assert(serves(specials, SpecialTokenKind::Eos, metadata, eos, tokens)) by {
            assert forall|special: SpecialView|
                special.kind == SpecialTokenKind::Eos implies (#[trigger] specials.contains(
                special,
            ) <==> declares(metadata, eos, special.id as int) && special.id < tokens.len()
                && special.text == tokens[special.id as int]) by {
                lemma_special(SpecialTokenKind::Bos, metadata, bos, tokens, special);
                lemma_special(SpecialTokenKind::Eos, metadata, eos, tokens, special);
                lemma_special(SpecialTokenKind::Bos, metadata, bos, tokens, special);
                lemma_special(SpecialTokenKind::Eos, metadata, eos, tokens, special);
                lemma_special(SpecialTokenKind::Pad, metadata, pad, tokens, special);
            }
        }
        assert(serves(specials, SpecialTokenKind::Pad, metadata, pad, tokens)) by {
            assert forall|special: SpecialView|
                special.kind == SpecialTokenKind::Pad implies (#[trigger] specials.contains(
                special,
            ) <==> declares(metadata, pad, special.id as int) && special.id < tokens.len()
                && special.text == tokens[special.id as int]) by {
                lemma_special(SpecialTokenKind::Bos, metadata, bos, tokens, special);
                lemma_special(SpecialTokenKind::Eos, metadata, eos, tokens, special);
                lemma_special(SpecialTokenKind::Pad, metadata, pad, tokens, special);
            }
        }
    }
}

proof fn lemma_contains_sum(a: Seq<SpecialView>, b: Seq<SpecialView>, item: SpecialView)
    ensures
        (a + b).contains(item) <==> a.contains(item) || b.contains(item),
{
    if a.contains(item) {
        let at = choose|at: int| 0 <= at < a.len() && a[at] == item;
        assert((a + b)[at] == item);
    }
    if b.contains(item) {
        let at = choose|at: int| 0 <= at < b.len() && b[at] == item;
        assert((a + b)[a.len() + at] == item);
    }
}

/// How a tokenizer is described: under the name of the artifact it comes from, with as many
/// tokens as its file lists, counted in 32 bits, and identifiers from zero to that of the last
/// one.
pub proof fn tokenizers_are_described(
    metadata: MetadataView,
    artifact_id: Seq<char>,
    expected: Option<u64>,
    tokens: Seq<Seq<char>>,
)
    requires
        lists(metadata, "tokenizer.ggml.tokens"@, tokens),
    ensures
        built(metadata, artifact_id, expected) matches Ok(tokenizer) ==> {
            let description = tokenizer.description;
            &&& description.id == artifact_id
            &&& description.artifact == artifact_id
            &&& description.family == "gguf-gpt2-bpe"@
            &&& description.revision == "1"@
            &&& description.vocabulary_size == tokens.len() % 0x1_0000_0000
            &&& description.token_id_range.start == 0
            &&& tokens.len() < 0x1_0000_0000 ==> description.token_id_range.end_inclusive
                == tokens.len() - 1
            &&& description.model_max_length is None
            &&& !description.byte_fallback
            &&& description.supports_offsets
            &&& !description.supports_token_type_ids
            &&& !description.supports_browser
            &&& tokenizer.splits_bytes
            &&& tokenizer.joins_bytes
        },
{
    if let Ok(tokenizer) = built(metadata, artifact_id, expected) {
        if tokens.len() < 0x1_0000_0000 {
            lemma_last_is_highest(tokens.len() as u32, tokenizer.description.special_tokens);
        }
    }
}

/// Special tokens that are tokens are none past the last.
proof fn lemma_last_is_highest(size: u32, specials: Seq<SpecialView>)
    requires
        size > 0,
        forall|at: int| 0 <= at < specials.len() ==> (#[trigger] specials[at]).id < size,
    ensures
        highest_id(size, specials) == size - 1,
    decreases specials.len(),
{
    if specials.len() > 0 {
        let shorter = specials.drop_last();
        assert forall|at: int| 0 <= at < shorter.len() implies (#[trigger] shorter[at]).id
            < size by {
            assert(shorter[at] == specials[at]);
        }
        lemma_last_is_highest(size, shorter);
        assert(specials[specials.len() - 1].id < size);
    }
}

/// How many tokens count as added: as many as there are identifiers of control tokens that are
/// not empty, counted in 32 bits.
pub proof fn added_tokens_are_counted(
    metadata: MetadataView,
    artifact_id: Seq<char>,
    expected: Option<u64>,
)
    ensures
        built(metadata, artifact_id, expected) matches Ok(tokenizer) ==> {
            let ids = Set::new(
                |id: u32|
                    exists|token: Seq<char>| #[trigger]
                        tokenizer.specials.contains(token) && token.len() > 0
                            && tokenizer.vocabulary[token] == id,
            );
            tokenizer.description.added_token_count == ids.len() % 0x1_0000_0000
        },
{
    if let Ok(tokenizer) = built(metadata, artifact_id, expected) {
        let ids = Set::new(
            |id: u32|
                exists|token: Seq<char>| #[trigger]
                    tokenizer.specials.contains(token) && token.len() > 0
                        && tokenizer.vocabulary[token] == id,
        );
        let known = identifiers(tokenizer.vocabulary, tokenizer.specials);
        assert forall|id: u32| #[trigger] known.to_set().contains(id) <==> ids.contains(id) by {
            lemma_identifiers(tokenizer.vocabulary, tokenizer.specials, id);
        }
        assert(known.to_set() =~= ids);
    }
}

/// The bytes whose digest identifies a tokenizer are those of its tokens from the first one on,
/// with nothing between them.
pub proof fn tokens_are_digested_in_order(first: Seq<char>, rest: Seq<Seq<char>>)
    ensures
        joined_bytes(Seq::empty()) == Seq::<u8>::empty(),
        joined_bytes(seq![first] + rest) == encode_utf8(first) + joined_bytes(rest),
    decreases rest.len(),
{
    let all = seq![first] + rest;
    if rest.len() == 0 {
        assert(all.drop_last() =~= Seq::<Seq<char>>::empty());
        assert(all.last() == first);
        assert(joined_bytes(all.drop_last()) =~= Seq::<u8>::empty());
        assert(joined_bytes(all) =~= encode_utf8(first) + joined_bytes(rest));
    } else {
        tokens_are_digested_in_order(first, rest.drop_last());
        assert(all.drop_last() =~= seq![first] + rest.drop_last());
        assert(all.last() == rest.last());
        assert(joined_bytes(all) =~= encode_utf8(first) + joined_bytes(rest));
    }
}

/// What special tokens take together is what each takes, added up, and they are not too many
/// where that is at most seven eighths of what can be counted in 31 bits. So is a text to encode
/// not too long.
pub proof fn special_tokens_are_measured(
    metadata: MetadataView,
    first: Seq<char>,
    rest: Seq<Seq<char>>,
)
    ensures
        total_bytes(Seq::empty()) == 0,
        total_bytes(seq![first] + rest) == encode_utf8(first).len() + total_bytes(rest),
        controls_fit(metadata) <==> total_bytes(control_tokens(metadata, declared_tokens(metadata)))
            <= 0x7000_0000,
        MAX_TEXT_BYTES == 0x7000_0000,
        forall|tokens: Seq<Seq<char>>| #[trigger]
            lists(metadata, "tokenizer.ggml.tokens"@, tokens) ==> declared_tokens(metadata)
                == tokens,
    decreases rest.len(),
{
    let all = seq![first] + rest;
    if rest.len() == 0 {
        assert(all.drop_last() =~= Seq::<Seq<char>>::empty());
        assert(total_bytes(all.drop_last()) == 0);
        assert(all.last() == first);
    } else {
        special_tokens_are_measured(metadata, first, rest.drop_last());
        assert(all.drop_last() =~= seq![first] + rest.drop_last());
        assert(all.last() == rest.last());
    }
}

/// Where identifiers are refused, it is for the first that is below the start of the range or
/// past its end.
pub proof fn first_strays_are_cited(range: TokenIdRange, ids: Seq<u32>)
    ensures
        first_outside(range, ids) matches Some(id) ==> exists|at: int|
            {
                &&& 0 <= at < ids.len()
                &&& #[trigger] ids[at] == id
                &&& id < range.start || id > range.end_inclusive
                &&& forall|before: int|
                    0 <= before < at ==> range.start <= #[trigger] ids[before]
                        <= range.end_inclusive
            },
        first_outside(range, ids) is None ==> forall|at: int|
            0 <= at < ids.len() ==> range.start <= #[trigger] ids[at] <= range.end_inclusive,
    decreases ids.len(),
{
    if ids.len() > 0 {
        let rest = ids.skip(1);
        first_strays_are_cited(range, rest);
        assert forall|at: int| 0 < at < ids.len() implies #[trigger] ids[at] == rest[at - 1] by {}
        if range.start <= ids[0] <= range.end_inclusive {
            if let Some(id) = first_outside(range, ids) {
                let at = choose|at: int|
                    {
                        &&& 0 <= at < rest.len()
                        &&& #[trigger] rest[at] == id
                        &&& id < range.start || id > range.end_inclusive
                        &&& forall|before: int|
                            0 <= before < at ==> range.start <= #[trigger] rest[before]
                                <= range.end_inclusive
                    };
                assert(ids[at + 1] == id);
                assert forall|before: int| 0 <= before < at + 1 implies range.start
                    <= #[trigger] ids[before] <= range.end_inclusive by {
                    if before > 0 {
                        assert(ids[before] == rest[before - 1]);
                    }
                }
            }
        }
    }
}

/// What the engine decodes and encodes is handed out as it is; what it fails with is handed on:
/// as text that is not UTF-8 where it decodes, and as input that is not valid where it encodes.
pub proof fn engine_results_are_handed_on(
    tokenizer: TokenizerView,
    ids: Seq<u32>,
    spans: Seq<(usize, usize)>,
    text: Seq<char>,
    count: nat,
    return_offsets: bool,
    policy: TruncationPolicy,
    max_tokens: Option<usize>,
)
    ensures
        decoded(Ok(text), count) == Ok::<_, TokenizerErrorView>((text, count)),
        decoded(Err(text), count) == Err::<(Seq<char>, nat), _>(
            TokenizerErrorView::InvalidUtf8(text),
        ),
        decoded_text(tokenizer, ids, false) == decoding(
            tokenizer.vocabulary,
            tokenizer.specials,
            tokenizer.joins_bytes,
            ids,
            false,
        ),
        encoded_by(Err(text), return_offsets, policy, max_tokens) == Err::<EncodeView, _>(
            TokenizerErrorView::BatchInputInvalid(text),
        ),
        encoded_by(Ok((ids, spans)), return_offsets, policy, None) matches Ok(output)
            && output.token_ids == ids,
{
}

/// Whether an identifier is that of a special token that is not empty.
pub open spec fn is_special_id(tokenizer: TokenizerView, id: u32) -> bool {
    exists|token: Seq<char>| #[trigger]
        tokenizer.specials.contains(token) && token.len() > 0 && tokenizer.vocabulary[token] == id
}

/// To skip special tokens is to decode the identifiers that are not those of special tokens, in
/// their order.
pub proof fn special_tokens_are_skipped(tokenizer: TokenizerView, ids: Seq<u32>)
    ensures
        decoded_text(tokenizer, ids, true) == decoding(
            tokenizer.vocabulary,
            tokenizer.specials,
            tokenizer.joins_bytes,
            ids.filter(|id: u32| !is_special_id(tokenizer, id)),
            false,
        ),
{
    let known = identifiers(tokenizer.vocabulary, tokenizer.specials);
    let one = |id: u32| !known.contains(id);
    let other = |id: u32| !is_special_id(tokenizer, id);
    assert forall|id: u32| #[trigger] one(id) == other(id) by {
        lemma_identifiers(tokenizer.vocabulary, tokenizer.specials, id);
    }
    assert(one =~= other);
}

/// How a tokenizer's description is refused: with the reason, and before it what was refused.
pub proof fn refused_descriptions_are_cited(id: Seq<char>, outcome: DescriptionOutcome)
    ensures
        outcome is Valid <==> description_refusal(id, outcome) is None,
        outcome is InvalidId ==> description_refusal(id, outcome) == Some(
            "invalid tokenizer id '"@ + id + "': "@ + outcome->InvalidId_error@,
        ),
        outcome is InvalidArtifactId ==> description_refusal(id, outcome) == Some(
            "invalid tokenizer artifact id '"@ + id + "': "@ + outcome->InvalidArtifactId_error@,
        ),
        outcome is InvalidLabel ==> description_refusal(id, outcome) == Some(
            outcome->InvalidLabel_error@,
        ),
        outcome is Invalid ==> description_refusal(id, outcome) == Some(
            "tokenizer metadata failed validation: "@ + outcome->Invalid_error@,
        ),
{
}

/// How a vocabulary is refused: as malformed, with what is wrong about it in the text. A size is
/// refused with both numbers, a merge with its text, and a token that a merge asks for and that is
/// not there with its own.
#[verifier::rlimit(50)]
pub proof fn refused_vocabularies_are_cited(
    metadata: MetadataView,
    artifact_id: Seq<char>,
    expected: Option<u64>,
    tokens: Seq<Seq<char>>,
    texts: Seq<Seq<char>>,
    rank: int,
)
    requires
        declares_text(metadata, "tokenizer.ggml.model"@, "gpt2"@),
        lists(metadata, "tokenizer.ggml.tokens"@, tokens),
        lists(metadata, "tokenizer.ggml.merges"@, texts),
        tokens.len() > 0,
    ensures
        ({
            let result = built(metadata, artifact_id, expected);
            let size = tokens.len() % 0x1_0000_0000;
            let large = expected is Some && size > expected->Some_0;
            &&& large ==> result == malformed_vocabulary(
                "GGUF tokenizer.ggml.tokens vocabulary size "@ + decimal_text(size)
                    + " exceeds the model's real embedding table row count "@ + decimal_text(
                    expected->Some_0 as nat,
                ),
            )
            &&& !large && is_first_unsplit(texts, rank) ==> result == malformed_vocabulary(
                "GGUF tokenizer.ggml.merges entry '"@ + texts[rank]
                    + "' is not a space-separated pair"@,
            )
            &&& !large && result is Err && (forall|at: int|
                0 <= at < texts.len() ==> (#[trigger] texts[at]).contains(' ')) ==> exists|
                token: Seq<char>,
            | #[trigger] is_refused_for(result, token) && !tokens.contains(token)
        }),
{
    lemma_merges(texts);
    lemma_last_places(tokens);
    if is_first_unsplit(texts, rank) {
        lemma_first_unsplit(texts, rank);
    }
    if split_merges(texts) is Ok {
        let merges = split_merges(texts)->Ok_0;
        let vocabulary = token_vocabulary(tokens);
        lemma_missing_is_missing(vocabulary, merges);
        if let Some(token) = missing_token(vocabulary, merges) {
            assert(!tokens.contains(token));
            let result = built(metadata, artifact_id, expected);
            assert(expected is Some && tokens.len() % 0x1_0000_0000 > expected->Some_0
                || is_refused_for(result, token));
        }
    }
}

/// Whether a vocabulary is refused for a token that it lacks.
pub open spec fn is_refused_for(
    result: Result<TokenizerView, ErrorView>,
    token: Seq<char>,
) -> bool {
    result == malformed_vocabulary(
        "GGUF vocabulary failed to build a BPE model: "@ + ("Token `"@ + token
            + "` out of vocabulary"@),
    )
}

/// A refusal of a vocabulary as malformed.
pub open spec fn malformed_vocabulary(text: Seq<char>) -> Result<TokenizerView, ErrorView> {
    Err((IngestionErrorKind::MalformedMetadata, text))
}

/// Whether a text is the first one without a space.
pub open spec fn is_first_unsplit(texts: Seq<Seq<char>>, rank: int) -> bool {
    &&& 0 <= rank < texts.len()
    &&& !texts[rank].contains(' ')
    &&& forall|before: int| 0 <= before < rank ==> (#[trigger] texts[before]).contains(' ')
}

proof fn lemma_first_unsplit(texts: Seq<Seq<char>>, rank: int)
    requires
        is_first_unsplit(texts, rank),
    ensures
        split_merges(texts) == Err::<Seq<(Seq<char>, Seq<char>)>, _>(
            (
                IngestionErrorKind::MalformedMetadata,
                "GGUF tokenizer.ggml.merges entry '"@ + texts[rank]
                    + "' is not a space-separated pair"@,
            ),
        ),
    decreases texts.len(),
{
    let shorter = texts.drop_last();
    if rank < texts.len() - 1 {
        assert(shorter[rank] == texts[rank]);
        assert forall|before: int| 0 <= before < rank implies (#[trigger] shorter[before]).contains(
            ' ',
        ) by {
            assert(shorter[before] == texts[before]);
        }
        lemma_first_unsplit(shorter, rank);
    } else {
        lemma_merges(shorter);
        assert forall|before: int| 0 <= before < shorter.len() implies (
        #[trigger] shorter[before]).contains(' ') by {
            assert(shorter[before] == texts[before]);
        }
        lemma_split_at_space(texts.last());
    }
}

proof fn lemma_missing_is_missing(
    vocabulary: Map<Seq<char>, u32>,
    merges: Seq<(Seq<char>, Seq<char>)>,
)
    ensures
        missing_token(vocabulary, merges) matches Some(token) ==> !vocabulary.contains_key(token),
    decreases merges.len(),
{
    if merges.len() > 0 {
        lemma_missing_is_missing(vocabulary, merges.skip(1));
    }
}

} // verus!
