//! The description of a tokenizer, and the errors of using one.

use vstd::prelude::*;

verus! {

/// What a special token is for.
#[derive(Clone, Copy, Debug, PartialEq, Eq, Structural)]
pub enum SpecialTokenKind {
    Bos,
    Eos,
    Pad,
}

/// A token with a meaning of its own.
#[derive(Debug)]
pub struct SpecialToken {
    pub kind: SpecialTokenKind,
    pub text: String,
    pub id: u32,
}

/// What a [`SpecialToken`] says.
#[verifier::ext_equal]
pub struct SpecialView {
    pub kind: SpecialTokenKind,
    pub text: Seq<char>,
    pub id: u32,
}

impl View for SpecialToken {
    type V = SpecialView;

    open spec fn view(&self) -> SpecialView {
        SpecialView {
            kind: self.kind,
            text: self.text@,
            id: self.id,
        }
    }
}

/// What a list of special tokens says.
pub open spec fn special_views(tokens: Seq<SpecialToken>) -> Seq<SpecialView> {
    tokens.map_values(|token: SpecialToken| token@)
}

/// The identifiers that a tokenizer may give and take, from the first to the last.
#[derive(Clone, Copy, Debug, PartialEq, Eq, Structural)]
pub struct TokenIdRange {
    pub start: u32,
    pub end_inclusive: u32,
}

/// Whether an identifier lies in a range.
pub open spec fn in_range(range: TokenIdRange, id: u32) -> bool {
    range.start <= id <= range.end_inclusive
}

impl TokenIdRange {
    /// Whether `id` lies in the range.
    pub fn contains(&self, id: u32) -> (answer: bool)
        ensures
            answer == in_range(*self, id),
    {
        self.start <= id && id <= self.end_inclusive
    }
}

/// Why a tokenizer could not do what it was asked.
#[derive(Debug)]
pub enum TokenizerError {
    InvalidTokenId { token_id: u32 },
    InvalidUtf8 { message: String },
    OffsetsUnsupported,
    PromptTooLong { token_count: usize, limit: usize },
    BatchInputInvalid { message: String },
}

/// What a [`TokenizerError`] says.
pub enum TokenizerErrorView {
    InvalidTokenId(u32),
    InvalidUtf8(Seq<char>),
    OffsetsUnsupported,
    PromptTooLong(nat, nat),
    BatchInputInvalid(Seq<char>),
}

impl View for TokenizerError {
    type V = TokenizerErrorView;

    open spec fn view(&self) -> TokenizerErrorView {
        match self {
            TokenizerError::InvalidTokenId { token_id } => TokenizerErrorView::InvalidTokenId(
                *token_id,
            ),
            TokenizerError::InvalidUtf8 { message } => TokenizerErrorView::InvalidUtf8(message@),
            TokenizerError::OffsetsUnsupported => TokenizerErrorView::OffsetsUnsupported,
            TokenizerError::PromptTooLong { token_count, limit } => {
                TokenizerErrorView::PromptTooLong(*token_count as nat, *limit as nat)
            },
            TokenizerError::BatchInputInvalid { message } => {
                TokenizerErrorView::BatchInputInvalid(message@)
            },
        }
    }
}

/// The description of a tokenizer.
#[derive(Debug)]
pub struct TokenizerMetadata {
    pub id: String,
    pub artifact: String,
    pub family: String,
    pub revision: String,
    pub vocabulary_size: u32,
    pub added_token_count: u32,
    pub token_id_range: TokenIdRange,
    pub model_max_length: Option<u32>,
    pub special_tokens: Vec<SpecialToken>,
    pub byte_fallback: bool,
    pub supports_offsets: bool,
    pub supports_token_type_ids: bool,
    pub supports_browser: bool,
}

/// What a [`TokenizerMetadata`] says.
#[verifier::ext_equal]
pub struct DescriptionView {
    pub id: Seq<char>,
    pub artifact: Seq<char>,
    pub family: Seq<char>,
    pub revision: Seq<char>,
    pub vocabulary_size: u32,
    pub added_token_count: u32,
    pub token_id_range: TokenIdRange,
    pub model_max_length: Option<u32>,
    pub special_tokens: Seq<SpecialView>,
    pub byte_fallback: bool,
    pub supports_offsets: bool,
    pub supports_token_type_ids: bool,
    pub supports_browser: bool,
}

impl View for TokenizerMetadata {
    type V = DescriptionView;

    open spec fn view(&self) -> DescriptionView {
        DescriptionView {
            id: self.id@,
            artifact: self.artifact@,
            family: self.family@,
            revision: self.revision@,
            vocabulary_size: self.vocabulary_size,
            added_token_count: self.added_token_count,
            token_id_range: self.token_id_range,
            model_max_length: self.model_max_length,
            special_tokens: special_views(self.special_tokens@),
            byte_fallback: self.byte_fallback,
            supports_offsets: self.supports_offsets,
            supports_token_type_ids: self.supports_token_type_ids,
            supports_browser: self.supports_browser,
        }
    }
}

impl TokenizerMetadata {
    /// The special token for a purpose, if there is one.
    pub fn special_token(&self, kind: SpecialTokenKind) -> (token: Option<&SpecialToken>)
        ensures
            match token {
                Some(token) => exists|at: int|
                    0 <= at < self.special_tokens@.len() && self.special_tokens@[at] == *token
                        && token.kind == kind && forall|i: int|
                        0 <= i < at ==> (#[trigger] self.special_tokens@[i]).kind != kind,
                None => forall|i: int|
                    0 <= i < self.special_tokens@.len() ==> (
                    #[trigger] self.special_tokens@[i]).kind != kind,
            },
    {
        let mut at: usize = 0;
        while at < self.special_tokens.len()
            invariant
                at <= self.special_tokens@.len(),
                forall|i: int| 0 <= i < at ==> (#[trigger] self.special_tokens@[i]).kind != kind,
            decreases self.special_tokens@.len() - at,
        {
            if self.special_tokens[at].kind == kind {
                return Some(&self.special_tokens[at]);
            }
            at += 1;
        }
        None
    }
}

} // verus!
