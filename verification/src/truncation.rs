//! What is made of an encoding: limits, truncation and offsets.

use vstd::prelude::*;

use crate::token_metadata::{TokenizerError, TokenizerErrorView};

verus! {

/// Which tokens give way where a text has more than it may.
#[derive(Clone, Copy, Debug, PartialEq, Eq, Structural)]
pub enum TruncationPolicy {
    Never,
    Left,
    Right,
    Middle,
    ModelDefault,
    ClientPolicy,
}

/// The part of a text that a token covers.
#[derive(Clone, Copy, Debug, PartialEq, Eq, Structural)]
pub struct TokenOffset {
    pub byte_start: u32,
    pub byte_end: u32,
    pub char_start: Option<u32>,
    pub char_end: Option<u32>,
}

/// A text to encode.
#[derive(Debug)]
pub struct EncodeInput {
    pub text: String,
    pub add_special_tokens: bool,
    pub truncation: TruncationPolicy,
    pub max_tokens: Option<usize>,
    pub return_offsets: bool,
}

/// An encoded text.
#[derive(Debug)]
pub struct EncodeOutput {
    pub token_ids: Vec<u32>,
    pub token_count: usize,
    pub offsets: Option<Vec<TokenOffset>>,
    pub attention_mask: Option<Vec<u8>>,
    pub token_type_ids: Option<Vec<u32>>,
}

/// What an [`EncodeOutput`] says.
#[verifier::ext_equal]
pub struct EncodeView {
    pub token_ids: Seq<u32>,
    pub token_count: nat,
    pub offsets: Option<Seq<TokenOffset>>,
    pub attention_mask: Option<Seq<u8>>,
    pub token_type_ids: Option<Seq<u32>>,
}

impl View for EncodeOutput {
    type V = EncodeView;

    open spec fn view(&self) -> EncodeView {
        EncodeView {
            token_ids: self.token_ids@,
            token_count: self.token_count as nat,
            offsets: match self.offsets {
                Some(offsets) => Some(offsets@),
                None => None,
            },
            attention_mask: match self.attention_mask {
                Some(mask) => Some(mask@),
                None => None,
            },
            token_type_ids: match self.token_type_ids {
                Some(ids) => Some(ids@),
                None => None,
            },
        }
    }
}

/// What stays of too many items: the last ones, the first ones, or, with the middle cut
/// out, half of the limit at the front and the rest of it at the end.
pub open spec fn truncated<T>(items: Seq<T>, policy: TruncationPolicy, limit: nat) -> Seq<T> {
    match policy {
        TruncationPolicy::Never => items,
        TruncationPolicy::Left => items.skip(items.len() - limit),
        TruncationPolicy::ClientPolicy => items.skip(items.len() - limit),
        TruncationPolicy::Right => items.take(limit as int),
        TruncationPolicy::ModelDefault => items.take(limit as int),
        TruncationPolicy::Middle => items.take(limit as int / 2) + items.skip(
            items.len() - (limit - limit as int / 2),
        ),
    }
}

/// The low 32 bits of a number.
pub open spec fn low_half(number: usize) -> u32 {
    (number as nat % 0x1_0000_0000) as u32
}

/// The offset of a token, given the byte it begins at and the one after its last.
pub open spec fn token_offset(span: (usize, usize)) -> TokenOffset {
    TokenOffset {
        byte_start: low_half(span.0),
        byte_end: low_half(span.1),
        char_start: Some(low_half(span.0)),
        char_end: Some(low_half(span.1)),
    }
}

/// The offsets of tokens.
pub open spec fn token_offsets(spans: Seq<(usize, usize)>) -> Seq<TokenOffset> {
    spans.map_values(|span: (usize, usize)| token_offset(span))
}

/// The output for the tokens that stay.
pub open spec fn encoded(
    ids: Seq<u32>,
    spans: Seq<(usize, usize)>,
    return_offsets: bool,
) -> EncodeView {
    EncodeView {
        token_ids: ids,
        token_count: ids.len(),
        offsets: if return_offsets {
            Some(token_offsets(spans))
        } else {
            None
        },
        attention_mask: Some(Seq::new(ids.len(), |at: int| 1u8)),
        token_type_ids: None,
    }
}

/// The output for an encoding under a limit, or the refusal of one that is too long where
/// nothing may give way.
pub open spec fn limited(
    ids: Seq<u32>,
    spans: Seq<(usize, usize)>,
    return_offsets: bool,
    policy: TruncationPolicy,
    max_tokens: Option<usize>,
) -> Result<EncodeView, TokenizerErrorView> {
    match max_tokens {
        Some(limit) => if ids.len() <= limit {
            Ok(encoded(ids, spans, return_offsets))
        } else if policy == TruncationPolicy::Never {
            Err(TokenizerErrorView::PromptTooLong(ids.len(), limit as nat))
        } else {
            Ok(
                encoded(
                    truncated(ids, policy, limit as nat),
                    truncated(spans, policy, limit as nat),
                    return_offsets,
                ),
            )
        },
        None => Ok(encoded(ids, spans, return_offsets)),
    }
}

/// An encoding's outcome by the views of what it holds.
pub open spec fn encode_outcome(result: Result<EncodeOutput, TokenizerError>) -> Result<
    EncodeView,
    TokenizerErrorView,
> {
    match result {
        Ok(output) => Ok(output@),
        Err(error) => Err(error@),
    }
}

/// Copies the items from `start` up to `end` behind `target`.
fn append_range<T: Copy>(target: &mut Vec<T>, items: &Vec<T>, start: usize, end: usize)
    requires
        start <= end <= items@.len(),
    ensures
        final(target)@ == old(target)@ + items@.subrange(start as int, end as int),
{
    let ghost before = target@;
    let mut at: usize = start;
    assert(target@ =~= before + items@.subrange(start as int, start as int));
    while at < end
        invariant
            start <= at <= end <= items@.len(),
            target@ == before + items@.subrange(start as int, at as int),
        decreases end - at,
    {
        target.push(items[at]);
        at += 1;
        assert(target@ =~= before + items@.subrange(start as int, at as int));
    }
}

fn truncate_items<T: Copy>(items: Vec<T>, policy: TruncationPolicy, limit: usize) -> (kept: Vec<T>)
    requires
        limit < items@.len(),
    ensures
        kept@ == truncated(items@, policy, limit as nat),
{
    let length: usize = items.len();
    let mut kept: Vec<T> = Vec::new();
    match policy {
        TruncationPolicy::Never => {
            return items;
        },
        TruncationPolicy::Left | TruncationPolicy::ClientPolicy => {
            append_range(&mut kept, &items, length - limit, length);
        },
        TruncationPolicy::Right | TruncationPolicy::ModelDefault => {
            append_range(&mut kept, &items, 0, limit);
        },
        TruncationPolicy::Middle => {
            let left: usize = limit / 2;
            let right: usize = limit - left;
            append_range(&mut kept, &items, 0, left);
            append_range(&mut kept, &items, length - right, length);
        },
    }
    assert(kept@ =~= truncated(items@, policy, limit as nat));
    kept
}

fn read_low_half(number: usize) -> (bits: u32)
    ensures
        bits == low_half(number),
{
    (number as u64 % 0x1_0000_0000) as u32
}

fn list_offsets(spans: &Vec<(usize, usize)>) -> (offsets: Vec<TokenOffset>)
    ensures
        offsets@ == token_offsets(spans@),
{
    let mut offsets: Vec<TokenOffset> = Vec::new();
    let mut at: usize = 0;
    while at < spans.len()
        invariant
            at <= spans@.len(),
            offsets@ == token_offsets(spans@).take(at as int),
        decreases spans@.len() - at,
    {
        let (start, end) = spans[at];
        let start: u32 = read_low_half(start);
        let end: u32 = read_low_half(end);
        assert(token_offsets(spans@).take(at + 1) =~= token_offsets(spans@).take(at as int).push(
            token_offset(spans@[at as int]),
        ));
        offsets.push(
            TokenOffset {
                byte_start: start,
                byte_end: end,
                char_start: Some(start),
                char_end: Some(end),
            },
        );
        at += 1;
    }
    assert(offsets@ =~= token_offsets(spans@));
    offsets
}

fn ones(count: usize) -> (mask: Vec<u8>)
    ensures
        mask@ == Seq::new(count as nat, |at: int| 1u8),
{
    let mut mask: Vec<u8> = Vec::new();
    while mask.len() < count
        invariant
            mask@.len() <= count,
            forall|at: int| 0 <= at < mask@.len() ==> mask@[at] == 1u8,
        decreases count - mask@.len(),
    {
        mask.push(1);
    }
    assert(mask@ =~= Seq::new(count as nat, |at: int| 1u8));
    mask
}

/// Makes of an encoding what is handed out for it: `ids` are the tokens, and `spans` the
/// bytes that each covers.
pub fn finish_encoding(
    ids: Vec<u32>,
    spans: Vec<(usize, usize)>,
    return_offsets: bool,
    policy: TruncationPolicy,
    max_tokens: Option<usize>,
) -> (output: Result<EncodeOutput, TokenizerError>)
    requires
        ids@.len() == spans@.len(),
    ensures
        encode_outcome(output) == limited(ids@, spans@, return_offsets, policy, max_tokens),
{
    let mut ids: Vec<u32> = ids;
    let mut spans: Vec<(usize, usize)> = spans;
    match max_tokens {
        Some(limit) => {
            if ids.len() > limit {
                match policy {
                    TruncationPolicy::Never => {
                        return Err(
                            TokenizerError::PromptTooLong { token_count: ids.len(), limit },
                        );
                    },
                    _ => {
                        ids = truncate_items(ids, policy, limit);
                        spans = truncate_items(spans, policy, limit);
                    },
                }
            }
        },
        None => {},
    }
    let offsets: Option<Vec<TokenOffset>> = if return_offsets {
        Some(list_offsets(&spans))
    } else {
        None
    };
    let token_count: usize = ids.len();
    let mask: Vec<u8> = ones(token_count);
    Ok(
        EncodeOutput {
            token_ids: ids,
            token_count,
            offsets,
            attention_mask: Some(mask),
            token_type_ids: None,
        },
    )
}

/// Truncation leaves exactly as many items as the limit, each of which was there.
pub proof fn truncation_meets_the_limit<T>(items: Seq<T>, policy: TruncationPolicy, limit: nat)
    requires
        limit < items.len(),
        policy != TruncationPolicy::Never,
    ensures
        truncated(items, policy, limit).len() == limit,
        forall|at: int|
            0 <= at < limit ==> items.contains(#[trigger] truncated(items, policy, limit)[at]),
{
    let kept = truncated(items, policy, limit);
    assert forall|at: int| 0 <= at < limit implies items.contains(#[trigger] kept[at]) by {
        let from_end = items.len() - limit + at;
        if at < items.len() && kept[at] == items[at] {
        } else {
            assert(kept[at] == items[from_end]);
        }
    }
}

/// An output never has more tokens than the limit, and its mask and offsets cover exactly
/// its tokens.
pub proof fn outputs_are_consistent(
    ids: Seq<u32>,
    spans: Seq<(usize, usize)>,
    return_offsets: bool,
    policy: TruncationPolicy,
    max_tokens: Option<usize>,
)
    requires
        ids.len() == spans.len(),
    ensures
        limited(ids, spans, return_offsets, policy, max_tokens) matches Ok(output) ==> {
            &&& max_tokens matches Some(limit) ==> output.token_ids.len() <= limit
            &&& output.token_count == output.token_ids.len()
            &&& output.attention_mask matches Some(mask) && mask.len() == output.token_ids.len()
            &&& output.offsets is Some <==> return_offsets
            &&& output.offsets matches Some(offsets) ==> offsets.len() == output.token_ids.len()
        },
{
    match max_tokens {
        Some(limit) => {
            if ids.len() > limit && policy != TruncationPolicy::Never {
                truncation_meets_the_limit(ids, policy, limit as nat);
                truncation_meets_the_limit(spans, policy, limit as nat);
            }
        },
        None => {},
    }
}

/// The place that what stands at a place of an output comes from, out of `count` under a limit.
/// Up to the limit everything stays where it is. Beyond it, either the first ones stay, or the
/// last ones, or the first ones for half of the limit and the last ones for the rest.
pub open spec fn origin(
    policy: TruncationPolicy,
    count: int,
    max_tokens: Option<usize>,
    at: int,
) -> int {
    match max_tokens {
        Some(limit) => if count <= limit {
            at
        } else if policy == TruncationPolicy::Left || policy == TruncationPolicy::ClientPolicy {
            count - limit + at
        } else if policy == TruncationPolicy::Middle && at >= limit as int / 2 {
            count - limit + at
        } else {
            at
        },
        None => at,
    }
}

/// What is made of the tokens of a text under a limit. They are refused where they are more and
/// none may give way. Otherwise as many stay as may, each with its own offsets, where offsets are
/// asked for: the first byte that it covers and the one after the last, in 32 bits, for bytes and
/// characters alike. The mask has a one for every token.
pub proof fn tokens_keep_their_offsets(
    ids: Seq<u32>,
    spans: Seq<(usize, usize)>,
    return_offsets: bool,
    policy: TruncationPolicy,
    max_tokens: Option<usize>,
)
    requires
        spans.len() == ids.len(),
    ensures
        ({
            let over = max_tokens is Some && ids.len() > max_tokens->Some_0;
            let count = if over {
                max_tokens->Some_0 as int
            } else {
                ids.len() as int
            };
            match limited(ids, spans, return_offsets, policy, max_tokens) {
                Err(error) => over && policy == TruncationPolicy::Never && error
                    == TokenizerErrorView::PromptTooLong(
                    ids.len(),
                    max_tokens->Some_0 as nat,
                ),
                Ok(output) => {
                    &&& !(over && policy == TruncationPolicy::Never)
                    &&& output.token_ids.len() == count
                    &&& output.token_count == count
                    &&& forall|at: int|
                        0 <= at < count ==> #[trigger] output.token_ids[at] == ids[origin(
                            policy,
                            ids.len() as int,
                            max_tokens,
                            at,
                        )]
                    &&& output.attention_mask matches Some(mask)
                    &&& mask.len() == count
                    &&& forall|at: int| 0 <= at < count ==> #[trigger] mask[at] == 1
                    &&& output.token_type_ids is None
                    &&& output.offsets is Some <==> return_offsets
                    &&& output.offsets is Some ==> {
                        let offsets = output.offsets->Some_0;
                        &&& offsets.len() == count
                        &&& forall|at: int|
                            0 <= at < count ==> {
                                let span = spans[origin(policy, ids.len() as int, max_tokens, at)];
                                let offset = #[trigger] offsets[at];
                                &&& offset.byte_start == span.0 as int % 0x1_0000_0000
                                &&& offset.byte_end == span.1 as int % 0x1_0000_0000
                                &&& offset.char_start == Some(offset.byte_start)
                                &&& offset.char_end == Some(offset.byte_end)
                            }
                    }
                },
            }
        }),
{
}

} // verus!
