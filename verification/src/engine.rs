//! The subword engine: byte-pair encoding as the `tokenizers` crate does it.
//!
//! What the crate is relied on for stands here, function by function. A tokenizer is
//! described by what it holds: the vocabulary and the merges of its model, the special
//! tokens added to it, and whether its byte-level stages are set. Tokenizers come from
//! [`new_tokenizer`] alone, so nothing else about them differs.

use tokenizers::models::bpe::BPE;
use tokenizers::pre_tokenizers::byte_level::ByteLevel;
use tokenizers::{AddedToken, Tokenizer};
use vstd::prelude::*;
use vstd::utf8::encode_utf8;

use crate::metadata::text_views;

verus! {

/// A byte-pair encoding model of the `tokenizers` crate.
#[verifier::external_type_specification]
#[verifier::external_body]
pub struct ExBpe(tokenizers::models::bpe::BPE);

/// A tokenizer of the `tokenizers` crate.
#[verifier::external_type_specification]
#[verifier::external_body]
pub struct ExTokenizer(tokenizers::Tokenizer);

/// The vocabulary that a model holds.
pub uninterp spec fn model_vocabulary(model: BPE) -> Map<Seq<char>, u32>;

/// The merges that a model was built with, by rank.
pub uninterp spec fn model_merges(model: BPE) -> Seq<(Seq<char>, Seq<char>)>;

/// The vocabulary of the model that a tokenizer holds.
pub uninterp spec fn held_vocabulary(tokenizer: Tokenizer) -> Map<Seq<char>, u32>;

/// The merges that the model of a tokenizer was built with.
pub uninterp spec fn held_merges(tokenizer: Tokenizer) -> Seq<(Seq<char>, Seq<char>)>;

/// The special tokens that a tokenizer holds, in the order they were added.
pub uninterp spec fn held_specials(tokenizer: Tokenizer) -> Seq<Seq<char>>;

/// Whether a tokenizer splits text at byte level before encoding it.
pub uninterp spec fn splits_bytes(tokenizer: Tokenizer) -> bool;

/// Whether a tokenizer joins tokens at byte level when decoding them.
pub uninterp spec fn joins_bytes(tokenizer: Tokenizer) -> bool;

/// What encoding a text gives: token identifiers and, for each, the first byte it
/// covers and the one after its last; or the text of the failure.
pub uninterp spec fn encoding(
    vocabulary: Map<Seq<char>, u32>,
    merges: Seq<(Seq<char>, Seq<char>)>,
    specials: Seq<Seq<char>>,
    splits_bytes: bool,
    text: Seq<char>,
    add_special_tokens: bool,
) -> Result<(Seq<u32>, Seq<(usize, usize)>), Seq<char>>;

/// What decoding token identifiers gives: a text, or the text of the failure.
pub uninterp spec fn decoding(
    vocabulary: Map<Seq<char>, u32>,
    specials: Seq<Seq<char>>,
    joins_bytes: bool,
    token_ids: Seq<u32>,
    skip_special_tokens: bool,
) -> Result<Seq<char>, Seq<char>>;

/// The vocabulary of entries: a token that occurs more than once has the identifier of
/// its last entry.
pub open spec fn entries_vocabulary(entries: Seq<(Seq<char>, u32)>) -> Map<Seq<char>, u32>
    decreases entries.len(),
{
    if entries.len() == 0 {
        Map::empty()
    } else {
        entries_vocabulary(entries.drop_last()).insert(entries.last().0, entries.last().1)
    }
}

/// The first token that merges ask for and a vocabulary lacks: of each merge, its left
/// side, its right side, and the two together.
pub open spec fn missing_token(
    vocabulary: Map<Seq<char>, u32>,
    merges: Seq<(Seq<char>, Seq<char>)>,
) -> Option<Seq<char>>
    decreases merges.len(),
{
    if merges.len() == 0 {
        None
    } else {
        let (left, right) = merges[0];
        if !vocabulary.contains_key(left) {
            Some(left)
        } else if !vocabulary.contains_key(right) {
            Some(right)
        } else if !vocabulary.contains_key(left + right) {
            Some(left + right)
        } else {
            missing_token(vocabulary, merges.skip(1))
        }
    }
}

/// Whether a vocabulary has every token that is not empty.
pub open spec fn all_known(vocabulary: Map<Seq<char>, u32>, tokens: Seq<Seq<char>>) -> bool {
    forall|at: int|
        0 <= at < tokens.len() && (#[trigger] tokens[at]).len() > 0 ==> vocabulary.contains_key(
            tokens[at],
        )
}

/// The identifiers of tokens, without those that are empty.
pub open spec fn identifiers(vocabulary: Map<Seq<char>, u32>, tokens: Seq<Seq<char>>) -> Seq<u32>
    decreases tokens.len(),
{
    if tokens.len() == 0 {
        Seq::empty()
    } else {
        let before = identifiers(vocabulary, tokens.drop_last());
        if tokens.last().len() > 0 {
            before.push(vocabulary[tokens.last()])
        } else {
            before
        }
    }
}

/// Whether a text is one of the special tokens, and all of them are known.
pub open spec fn is_special_text(
    vocabulary: Map<Seq<char>, u32>,
    specials: Seq<Seq<char>>,
    text: Seq<char>,
) -> bool {
    all_known(vocabulary, specials) && specials.contains(text) && text.len() > 0
}

/// Identifiers without those of special tokens.
pub open spec fn plain_ids(
    vocabulary: Map<Seq<char>, u32>,
    specials: Seq<Seq<char>>,
    token_ids: Seq<u32>,
) -> Seq<u32> {
    token_ids.filter(|id: u32| !identifiers(vocabulary, specials).contains(id))
}

/// The bytes that texts take, all together.
pub open spec fn total_bytes(texts: Seq<Seq<char>>) -> nat
    decreases texts.len(),
{
    if texts.len() == 0 {
        0
    } else {
        total_bytes(texts.drop_last()) + encode_utf8(texts.last()).len()
    }
}

/// The most bytes that special tokens may take, all together: the automaton that finds
/// them in a text has a state for each byte, and numbers its states in 31 bits.
pub const MAX_SPECIAL_BYTES: u64 = 0x7000_0000;

/// The most bytes that a text to encode may take: the expression that splits it at byte
/// level counts its bytes in 31 bits, a space put in front included.
pub const MAX_TEXT_BYTES: u64 = 0x7000_0000;

/// Entries by the views of their tokens.
pub open spec fn entry_views(entries: Seq<(String, u32)>) -> Seq<(Seq<char>, u32)> {
    Seq::new(entries.len(), |at: int| (entries[at].0@, entries[at].1))
}

/// Merges by the views of their sides.
pub open spec fn merge_views(merges: Seq<(String, String)>) -> Seq<(Seq<char>, Seq<char>)> {
    Seq::new(merges.len(), |at: int| (merges[at].0@, merges[at].1@))
}

/// Builds a model without byte fallback: `BPE::builder`, `BpeBuilder::vocab_and_merges`,
/// `BpeBuilder::byte_fallback` and `BpeBuilder::build`. The model holds the vocabulary
/// of the entries, and its merges are those given. Building fails exactly where a merge asks for a token
/// that the vocabulary lacks, and the failure cites the first such token.
#[verifier::external_body]
pub(crate) fn build_bpe(entries: Vec<(String, u32)>, merges: Vec<(String, String)>) -> (model:
    Result<BPE, String>)
    ensures
        match missing_token(entries_vocabulary(entry_views(entries@)), merge_views(merges@)) {
            Some(token) => model matches Err(error) && error@ == "Token `"@ + token
                + "` out of vocabulary"@,
            None => model matches Ok(model) && model_vocabulary(model) == entries_vocabulary(
                entry_views(entries@),
            ) && model_merges(model) == merge_views(merges@),
        },
{
    let vocabulary: tokenizers::models::bpe::Vocab = entries.into_iter().collect();
    BPE::builder()
        .vocab_and_merges(vocabulary, merges)
        .byte_fallback(false)
        .build()
        .map_err(|error| error.to_string())
}

/// `Tokenizer::new`: a tokenizer that holds the model, and nothing else.
#[verifier::external_body]
pub(crate) fn new_tokenizer(model: BPE) -> (tokenizer: Tokenizer)
    ensures
        held_vocabulary(tokenizer) == model_vocabulary(model),
        held_merges(tokenizer) == model_merges(model),
        held_specials(tokenizer) == Seq::<Seq<char>>::empty(),
        !splits_bytes(tokenizer),
        !joins_bytes(tokenizer),
{
    Tokenizer::new(model)
}

/// `TokenizerImpl::with_pre_tokenizer` with the default byte-level stage: text is split
/// at byte level from now on, and nothing else changes.
#[verifier::external_body]
pub(crate) fn set_byte_level_splitting(tokenizer: &mut Tokenizer)
    ensures
        splits_bytes(*final(tokenizer)),
        held_vocabulary(*final(tokenizer)) == held_vocabulary(*old(tokenizer)),
        held_merges(*final(tokenizer)) == held_merges(*old(tokenizer)),
        held_specials(*final(tokenizer)) == held_specials(*old(tokenizer)),
        joins_bytes(*final(tokenizer)) == joins_bytes(*old(tokenizer)),
{
    tokenizer.with_pre_tokenizer(Some(ByteLevel::default()));
}

/// `TokenizerImpl::with_decoder` with the default byte-level stage: tokens are joined at
/// byte level from now on, and nothing else changes.
#[verifier::external_body]
pub(crate) fn set_byte_level_joining(tokenizer: &mut Tokenizer)
    ensures
        joins_bytes(*final(tokenizer)),
        held_vocabulary(*final(tokenizer)) == held_vocabulary(*old(tokenizer)),
        held_merges(*final(tokenizer)) == held_merges(*old(tokenizer)),
        held_specials(*final(tokenizer)) == held_specials(*old(tokenizer)),
        splits_bytes(*final(tokenizer)) == splits_bytes(*old(tokenizer)),
{
    tokenizer.with_decoder(Some(ByteLevel::default()));
}

/// `TokenizerImpl::add_special_tokens` on a tokenizer without special tokens: it holds
/// the given ones, and nothing else changes. The tokens are known to the vocabulary, so
/// none gets an identifier of its own. How many were new, which the function returns,
/// is not passed on.
#[verifier::external_body]
pub(crate) fn add_special_tokens(tokenizer: &mut Tokenizer, tokens: &Vec<&str>)
    requires
        held_specials(*old(tokenizer)).len() == 0,
        all_known(held_vocabulary(*old(tokenizer)), text_views(tokens@)),
        total_bytes(text_views(tokens@)) <= MAX_SPECIAL_BYTES,
    ensures
        held_specials(*final(tokenizer)) == text_views(tokens@),
        held_vocabulary(*final(tokenizer)) == held_vocabulary(*old(tokenizer)),
        held_merges(*final(tokenizer)) == held_merges(*old(tokenizer)),
        splits_bytes(*final(tokenizer)) == splits_bytes(*old(tokenizer)),
        joins_bytes(*final(tokenizer)) == joins_bytes(*old(tokenizer)),
{
    let added: Vec<AddedToken> = tokens
        .iter()
        .map(|text| AddedToken::from(*text, true))
        .collect();
    tokenizer.add_special_tokens(&added);
}

/// `TokenizerImpl::get_added_tokens_decoder`, by its length: the number of identifiers
/// that special tokens have. An empty special token is ignored.
#[verifier::external_body]
pub(crate) fn added_token_count(tokenizer: &Tokenizer) -> (count: usize)
    ensures
        all_known(held_vocabulary(*tokenizer), held_specials(*tokenizer)) ==> count
            == identifiers(
            held_vocabulary(*tokenizer),
            held_specials(*tokenizer),
        ).to_set().len(),
{
    tokenizer.get_added_tokens_decoder().len()
}

/// `TokenizerImpl::encode` on a text, by `Encoding::get_ids` and
/// `Encoding::get_offsets`. The result is a function of what the tokenizer holds, of the
/// text and of the flag; a failure is given by its text. There are as many offsets as
/// identifiers, and where the special tokens are known every identifier is that of a
/// token in the vocabulary. A text that is a special token is never taken apart: it
/// becomes the one identifier of that token. On a text beyond [`MAX_TEXT_BYTES`] the split
/// would lose count and panic.
#[verifier::external_body]
pub(crate) fn encode_text(tokenizer: &Tokenizer, text: &str, add_special_tokens: bool) -> (result:
    Result<(Vec<u32>, Vec<(usize, usize)>), String>)
    requires
        encode_utf8(text@).len() <= MAX_TEXT_BYTES,
    ensures
        match result {
            Ok((ids, offsets)) => Ok::<_, Seq<char>>((ids@, offsets@)),
            Err(error) => Err(error@),
        } == encoding(
            held_vocabulary(*tokenizer),
            held_merges(*tokenizer),
            held_specials(*tokenizer),
            splits_bytes(*tokenizer),
            text@,
            add_special_tokens,
        ),
        result matches Ok((ids, offsets)) ==> ids@.len() == offsets@.len(),
        all_known(held_vocabulary(*tokenizer), held_specials(*tokenizer)) ==> (result matches Ok(
            (ids, _),
        ) ==> forall|at: int|
            0 <= at < ids@.len() ==> held_vocabulary(*tokenizer).contains_value(
                #[trigger] ids@[at],
            )),
        result is Ok || !is_special_text(
            held_vocabulary(*tokenizer),
            held_specials(*tokenizer),
            text@,
        ),
        result matches Ok((ids, offsets)) ==> (is_special_text(
            held_vocabulary(*tokenizer),
            held_specials(*tokenizer),
            text@,
        ) ==> ids@ == seq![held_vocabulary(*tokenizer)[text@]] && offsets@ == seq![
            (0usize, encode_utf8(text@).len() as usize),
        ]),
{
    match tokenizer.encode(text, add_special_tokens) {
        Ok(encoding) => Ok((encoding.get_ids().to_vec(), encoding.get_offsets().to_vec())),
        Err(error) => Err(error.to_string()),
    }
}

/// `TokenizerImpl::decode`. Where no two tokens of the vocabulary share an identifier,
/// the result is a function of what the tokenizer holds, of the identifiers and of the
/// flag; a failure is given by its text. Where the special tokens are known, to skip them
/// is to decode the other identifiers. Joining at byte level never fails: bytes that are
/// no valid text are replaced.
#[verifier::external_body]
pub(crate) fn decode_ids(
    tokenizer: &Tokenizer,
    token_ids: &Vec<u32>,
    skip_special_tokens: bool,
) -> (result: Result<String, String>)
    ensures
        held_vocabulary(*tokenizer).is_injective() ==> match result {
            Ok(text) => Ok::<_, Seq<char>>(text@),
            Err(error) => Err(error@),
        } == decoding(
            held_vocabulary(*tokenizer),
            held_specials(*tokenizer),
            joins_bytes(*tokenizer),
            token_ids@,
            skip_special_tokens,
        ),
        held_vocabulary(*tokenizer).is_injective() && all_known(
            held_vocabulary(*tokenizer),
            held_specials(*tokenizer),
        ) && skip_special_tokens ==> match result {
            Ok(text) => Ok::<_, Seq<char>>(text@),
            Err(error) => Err(error@),
        } == decoding(
            held_vocabulary(*tokenizer),
            held_specials(*tokenizer),
            joins_bytes(*tokenizer),
            plain_ids(held_vocabulary(*tokenizer), held_specials(*tokenizer), token_ids@),
            false,
        ),
        joins_bytes(*tokenizer) ==> result is Ok,
{
    tokenizer
        .decode(token_ids, skip_special_tokens)
        .map_err(|error| error.to_string())
}

} // verus!
