//! Canonical names for the tensors of a Qwen2 GGUF file.
//!
//! A GGUF file names its tensors `token_embd.weight`, `blk.0.attn_q.weight` and
//! so on; consumers resolve weights by a format-neutral canonical name such as
//! `token_embedding` or `layers.0.self_attn.q_proj`.

use vstd::prelude::*;
use vstd::string::StringExecFns;

use crate::error::{malformed, malformed_view, outcome, unsupported_view};
use crate::error::{ErrorView, ProductionIngestionError};
use crate::text::{after_prefix, before_suffix, denotes_u64, numeral_digits, split_at_first};
use crate::text::{is_u64_numeral, same_text, split_once, strip_prefix, strip_suffix};

verus! {

/// The canonical name of a per-layer weight field.
pub open spec fn weight_field(field: Seq<char>) -> Option<Seq<char>> {
    if field == "attn_norm"@ {
        Some("input_norm"@)
    } else if field == "ffn_norm"@ {
        Some("post_attn_norm"@)
    } else if field == "attn_q"@ {
        Some("self_attn.q_proj"@)
    } else if field == "attn_k"@ {
        Some("self_attn.k_proj"@)
    } else if field == "attn_v"@ {
        Some("self_attn.v_proj"@)
    } else if field == "attn_output"@ {
        Some("self_attn.o_proj"@)
    } else if field == "ffn_gate"@ {
        Some("mlp.gate_proj"@)
    } else if field == "ffn_up"@ {
        Some("mlp.up_proj"@)
    } else if field == "ffn_down"@ {
        Some("mlp.down_proj"@)
    } else {
        None
    }
}

/// The canonical name of a per-layer bias field: only the three attention
/// inputs carry one.
pub open spec fn bias_field(field: Seq<char>) -> Option<Seq<char>> {
    if field == "attn_q"@ {
        Some("self_attn.q_bias"@)
    } else if field == "attn_k"@ {
        Some("self_attn.k_bias"@)
    } else if field == "attn_v"@ {
        Some("self_attn.v_bias"@)
    } else {
        None
    }
}

/// The canonical name of a weight outside every layer.
pub open spec fn top_level_field(name: Seq<char>) -> Option<Seq<char>> {
    if name == "token_embd"@ {
        Some("token_embedding"@)
    } else if name == "output_norm"@ {
        Some("final_norm"@)
    } else if name == "output"@ {
        Some("lm_head"@)
    } else {
        None
    }
}

/// A per-layer canonical name. The layer keeps the numeral it was written with.
pub open spec fn layer_name(layer: Seq<char>, field: Seq<char>) -> Seq<char> {
    "layers."@ + layer + "."@ + field
}

/// The layer numeral and the field of `blk.<numeral>.<field>`.
pub open spec fn block_parts(name: Seq<char>) -> Option<(Seq<char>, Seq<char>)> {
    match after_prefix(name, "blk."@) {
        Some(rest) => match split_at_first(rest, '.') {
            Some((layer, field)) => if denotes_u64(layer) {
                Some((layer, field))
            } else {
                None
            },
            None => None,
        },
        None => None,
    }
}

/// The canonical name of a bias tensor, given its name without `.bias`.
pub open spec fn canonical_bias(raw: Seq<char>, stem: Seq<char>) -> Result<Seq<char>, ErrorView> {
    let refusal = unsupported_view(
        "tensor '"@ + raw + "' is a bias term for '"@ + stem
            + "'; the production Qwen Component graph only supports attention q/k/v bias terms"@,
    );
    match block_parts(stem) {
        Some((layer, field)) => match bias_field(field) {
            Some(canonical) => Ok(layer_name(layer, canonical)),
            None => Err(refusal),
        },
        None => Err(refusal),
    }
}

/// The canonical name of a per-layer weight, given what follows `blk.`.
pub open spec fn canonical_layer_weight(raw: Seq<char>, rest: Seq<char>) -> Result<
    Seq<char>,
    ErrorView,
> {
    match split_at_first(rest, '.') {
        None => Err(
            malformed_view("tensor '"@ + raw + "' has an unrecognized per-layer name shape"@),
        ),
        Some((layer, field)) => if !denotes_u64(layer) {
            Err(
                malformed_view(
                    "tensor '"@ + raw + "' has a non-numeric layer index '"@ + layer + "'"@,
                ),
            )
        } else {
            match weight_field(field) {
                Some(canonical) => Ok(layer_name(layer, canonical)),
                None => Err(
                    malformed_view(
                        "tensor '"@ + raw + "' names an unrecognized per-layer field '"@ + field
                            + "'"@,
                    ),
                ),
            }
        },
    }
}

/// The canonical name of a GGUF tensor, or why it has none.
pub open spec fn canonical_name(raw: Seq<char>) -> Result<Seq<char>, ErrorView> {
    match before_suffix(raw, ".bias"@) {
        Some(stem) => canonical_bias(raw, stem),
        None => match before_suffix(raw, ".weight"@) {
            None => Err(
                malformed_view("tensor '"@ + raw + "' does not end in '.weight' or '.bias'"@),
            ),
            Some(name) => match top_level_field(name) {
                Some(canonical) => Ok(canonical),
                None => match after_prefix(name, "blk."@) {
                    Some(rest) => canonical_layer_weight(raw, rest),
                    None => Err(
                        malformed_view(
                            "tensor '"@ + raw
                                + "' does not match any recognized Qwen2 GGUF tensor name shape"@,
                        ),
                    ),
                },
            },
        },
    }
}

fn weight_field_of(field: &str) -> (canonical: Option<&'static str>)
    ensures
        canonical is Some <==> weight_field(field@) is Some,
        canonical matches Some(name) ==> Some(name@) == weight_field(field@),
{
    if same_text(field, "attn_norm") {
        Some("input_norm")
    } else if same_text(field, "ffn_norm") {
        Some("post_attn_norm")
    } else if same_text(field, "attn_q") {
        Some("self_attn.q_proj")
    } else if same_text(field, "attn_k") {
        Some("self_attn.k_proj")
    } else if same_text(field, "attn_v") {
        Some("self_attn.v_proj")
    } else if same_text(field, "attn_output") {
        Some("self_attn.o_proj")
    } else if same_text(field, "ffn_gate") {
        Some("mlp.gate_proj")
    } else if same_text(field, "ffn_up") {
        Some("mlp.up_proj")
    } else if same_text(field, "ffn_down") {
        Some("mlp.down_proj")
    } else {
        None
    }
}

fn bias_field_of(field: &str) -> (canonical: Option<&'static str>)
    ensures
        canonical is Some <==> bias_field(field@) is Some,
        canonical matches Some(name) ==> Some(name@) == bias_field(field@),
{
    if same_text(field, "attn_q") {
        Some("self_attn.q_bias")
    } else if same_text(field, "attn_k") {
        Some("self_attn.k_bias")
    } else if same_text(field, "attn_v") {
        Some("self_attn.v_bias")
    } else {
        None
    }
}

fn build_layer_name(layer: &str, field: &str) -> (name: String)
    ensures
        name@ == layer_name(layer@, field@),
{
    let mut name: String = String::from_str("layers.");
    name.append(layer);
    name.append(".");
    name.append(field);
    name
}

fn normalize_bias_name(raw: &str, stem: &str) -> (name: Result<String, ProductionIngestionError>)
    ensures
        outcome(name) == canonical_bias(raw@, stem@),
{
    if let Some(rest) = strip_prefix(stem, "blk.") {
        if let Some((layer, field)) = split_once(rest, '.') {
            if is_u64_numeral(layer) {
                if let Some(canonical) = bias_field_of(field) {
                    return Ok(build_layer_name(layer, canonical));
                }
            }
        }
    }
    let mut reason: String = String::from_str("tensor '");
    reason.append(raw);
    reason.append("' is a bias term for '");
    reason.append(stem);
    reason.append(
        "'; the production Qwen Component graph only supports attention q/k/v bias terms",
    );
    Err(ProductionIngestionError::UnsupportedFormat { reason })
}

fn normalize_layer_weight_name(raw: &str, rest: &str) -> (name: Result<
    String,
    ProductionIngestionError,
>)
    ensures
        outcome(name) == canonical_layer_weight(raw@, rest@),
{
    let mut reason: String = String::from_str("tensor '");
    reason.append(raw);
    match split_once(rest, '.') {
        None => {
            reason.append("' has an unrecognized per-layer name shape");
            Err(malformed(reason))
        },
        Some((layer, field)) => {
            if !is_u64_numeral(layer) {
                reason.append("' has a non-numeric layer index '");
                reason.append(layer);
                reason.append("'");
                return Err(malformed(reason));
            }
            match weight_field_of(field) {
                Some(canonical) => Ok(build_layer_name(layer, canonical)),
                None => {
                    reason.append("' names an unrecognized per-layer field '");
                    reason.append(field);
                    reason.append("'");
                    Err(malformed(reason))
                },
            }
        },
    }
}

/// Turns the name of a GGUF Qwen2 tensor into its canonical name, or refuses it.
///
/// - `blk.N.attn_{q,k,v}.bias` becomes `layers.N.self_attn.{q,k,v}_bias`.
/// - Any other bias is an `UnsupportedFormat`: no other projection adds a bias
///   term, and dropping one silently would give wrong results.
/// - A name that is not recognized is a `MalformedMetadata` that cites it.
pub fn normalize_tensor_name(raw: &str) -> (name: Result<String, ProductionIngestionError>)
    ensures
        outcome(name) == canonical_name(raw@),
{
    if let Some(stem) = strip_suffix(raw, ".bias") {
        return normalize_bias_name(raw, stem);
    }
    let mut reason: String = String::from_str("tensor '");
    reason.append(raw);
    match strip_suffix(raw, ".weight") {
        None => {
            reason.append("' does not end in '.weight' or '.bias'");
            Err(malformed(reason))
        },
        Some(name) => {
            if same_text(name, "token_embd") {
                return Ok(String::from_str("token_embedding"));
            }
            if same_text(name, "output_norm") {
                return Ok(String::from_str("final_norm"));
            }
            if same_text(name, "output") {
                return Ok(String::from_str("lm_head"));
            }
            match strip_prefix(name, "blk.") {
                Some(rest) => normalize_layer_weight_name(raw, rest),
                None => {
                    reason.append("' does not match any recognized Qwen2 GGUF tensor name shape");
                    Err(malformed(reason))
                },
            }
        },
    }
}

/// The file's name of a per-layer weight.
pub open spec fn weight_name(layer: Seq<char>, field: Seq<char>) -> Seq<char> {
    "blk."@ + layer + "."@ + field + ".weight"@
}

/// The file's name of a per-layer bias.
pub open spec fn bias_name(layer: Seq<char>, field: Seq<char>) -> Seq<char> {
    "blk."@ + layer + "."@ + field + ".bias"@
}

/// A numeral has neither a dot nor a letter in it.
pub(crate) proof fn lemma_numeral_chars(layer: Seq<char>)
    requires
        denotes_u64(layer),
    ensures
        !layer.contains('.'),
        !layer.contains('j'),
{
    assert forall|i: int| 0 <= i < layer.len() implies layer[i] != '.' && layer[i] != 'j' by {
        let digits = numeral_digits(layer);
        if layer[0] == '+' {
            if i > 0 {
                assert(digits[i - 1] == layer[i]);
            }
        } else {
            assert(digits[i] == layer[i]);
        }
    }
}

/// A text splits where its first separator stands.
proof fn lemma_split(left: Seq<char>, separator: char, right: Seq<char>)
    requires
        !left.contains(separator),
    ensures
        split_at_first(left + seq![separator] + right, separator) == Some((left, right)),
{
    let text = left + seq![separator] + right;
    let at = left.len() as int;
    assert(text[at] == separator);
    assert(text.contains(separator));
    text.index_of_first_ensures(separator);
    let found = text.index_of_first(separator).unwrap();
    if found < at {
        assert(left[found] == separator);
    }
    assert(found == at);
    assert(text.take(at) =~= left);
    assert(text.skip(at + 1) =~= right);
}

/// What a split gives, put together again.
pub(crate) proof fn lemma_split_rejoins(text: Seq<char>, separator: char)
    requires
        split_at_first(text, separator) is Some,
    ensures
        split_at_first(text, separator) matches Some((left, right)) ==> text == left
            + seq![separator] + right && !left.contains(separator),
{
    text.index_of_first_ensures(separator);
    let at = text.index_of_first(separator).unwrap();
    assert(text =~= text.take(at) + seq![separator] + text.skip(at + 1));
    assert forall|i: int| 0 <= i < at implies text.take(at)[i] != separator by {}
}

proof fn lemma_dot()
    ensures
        "."@ == seq!['.'],
{
    reveal_strlit(".");
    assert("."@ =~= seq!['.']);
}

/// A name that ends in `.weight` does not end in `.bias`.
proof fn lemma_weight_is_no_bias(stem: Seq<char>)
    ensures
        before_suffix(stem + ".weight"@, ".weight"@) == Some(stem),
        before_suffix(stem + ".weight"@, ".bias"@) is None,
        before_suffix(stem + ".bias"@, ".bias"@) == Some(stem),
{
    reveal_strlit(".weight");
    reveal_strlit(".bias");
    let weight = stem + ".weight"@;
    let bias = stem + ".bias"@;
    assert(weight.skip(weight.len() - 7) =~= ".weight"@);
    assert(weight.take(weight.len() - 7) =~= stem);
    assert(bias.skip(bias.len() - 5) =~= ".bias"@);
    assert(bias.take(bias.len() - 5) =~= stem);
    if weight.len() >= 5 {
        assert(weight.skip(weight.len() - 5)[4] == 't');
        assert(".bias"@[4] == 's');
    }
}

/// What `blk.<layer>.<field>` is made of.
proof fn lemma_block_parts(layer: Seq<char>, field: Seq<char>)
    requires
        denotes_u64(layer),
    ensures
        ({
            let stem = "blk."@ + layer + "."@ + field;
            &&& after_prefix(stem, "blk."@) == Some(layer + "."@ + field)
            &&& split_at_first(layer + "."@ + field, '.') == Some((layer, field))
            &&& block_parts(stem) == Some((layer, field))
            &&& top_level_field(stem) is None
        }),
{
    lemma_dot();
    lemma_numeral_chars(layer);
    lemma_split(layer, '.', field);
    reveal_strlit("blk.");
    reveal_strlit("token_embd");
    reveal_strlit("output_norm");
    reveal_strlit("output");
    let stem = "blk."@ + layer + "."@ + field;
    assert(stem.take(4) =~= "blk."@);
    assert(stem.skip(4) =~= layer + "."@ + field);
    assert(stem[0] == 'b');
}

/// Every weight field of every layer has its canonical name, and every bias field too.
/// The layer is any numeral that fits in a `u64`.
pub proof fn layer_fields_are_named(layer: Seq<char>, field: Seq<char>)
    requires
        denotes_u64(layer),
    ensures
        weight_field(field) matches Some(canonical) ==> canonical_name(weight_name(layer, field))
            == Ok::<_, ErrorView>(layer_name(layer, canonical)),
        bias_field(field) matches Some(canonical) ==> canonical_name(bias_name(layer, field))
            == Ok::<_, ErrorView>(layer_name(layer, canonical)),
        weight_field(field) is None ==> canonical_name(weight_name(layer, field)) is Err,
        bias_field(field) is None ==> canonical_name(bias_name(layer, field)) is Err,
{
    let stem = "blk."@ + layer + "."@ + field;
    lemma_block_parts(layer, field);
    lemma_weight_is_no_bias(stem);
}

/// The three tensors outside every layer have their canonical names.
pub proof fn top_level_tensors_are_named(name: Seq<char>)
    ensures
        top_level_field(name) matches Some(canonical) ==> canonical_name(name + ".weight"@)
            == Ok::<_, ErrorView>(canonical),
{
    lemma_weight_is_no_bias(name);
}

/// What a canonical name was made from: `Ok` names come of three forms only.
pub(crate) proof fn lemma_origin(raw: Seq<char>)
    ensures
        canonical_name(raw) matches Ok(name) ==> {
            ||| exists|top: Seq<char>| #[trigger]
                top_level_field(top) == Some(name) && raw == top + ".weight"@
            ||| exists|layer: Seq<char>, field: Seq<char>| #[trigger]
                weight_name(layer, field) == raw && denotes_u64(layer) && weight_field(field)
                    is Some && name == layer_name(layer, weight_field(field).unwrap())
            ||| exists|layer: Seq<char>, field: Seq<char>| #[trigger]
                bias_name(layer, field) == raw && denotes_u64(layer) && bias_field(field) is Some
                    && name == layer_name(layer, bias_field(field).unwrap())
        },
{
    lemma_dot();
    reveal_strlit("blk.");
    reveal_strlit(".weight");
    reveal_strlit(".bias");
    if canonical_name(raw) is Ok {
        if let Some(stem) = before_suffix(raw, ".bias"@) {
            let rest = after_prefix(stem, "blk."@).unwrap();
            lemma_split_rejoins(rest, '.');
            let (layer, field) = split_at_first(rest, '.').unwrap();
            assert(raw =~= stem + ".bias"@);
            assert(stem =~= "blk."@ + rest);
            assert(raw =~= bias_name(layer, field));
            assert(bias_name(layer, field) == raw && denotes_u64(layer) && bias_field(field)
                is Some);
        } else {
            let stem = before_suffix(raw, ".weight"@).unwrap();
            assert(raw =~= stem + ".weight"@);
            if top_level_field(stem) is Some {
            } else {
                let rest = after_prefix(stem, "blk."@).unwrap();
                lemma_split_rejoins(rest, '.');
                let (layer, field) = split_at_first(rest, '.').unwrap();
                assert(stem =~= "blk."@ + rest);
                assert(raw =~= weight_name(layer, field));
                assert(weight_name(layer, field) == raw && denotes_u64(layer) && weight_field(field)
                    is Some);
            }
        }
    }
}

/// A per-layer name tells its layer and its field.
pub(crate) proof fn lemma_layer_name_parts(layer: Seq<char>, field: Seq<char>)
    requires
        denotes_u64(layer),
    ensures
        split_at_first(layer_name(layer, field).skip(7), '.') == Some((layer, field)),
        layer_name(layer, field).len() > 7,
        layer_name(layer, field)[0] == 'l',
        layer_name(layer, field)[1] == 'a',
{
    lemma_dot();
    lemma_numeral_chars(layer);
    lemma_split(layer, '.', field);
    reveal_strlit("layers.");
    assert(layer_name(layer, field).skip(7) =~= layer + "."@ + field);
}

/// Field names differ where their canonical names do.
proof fn lemma_fields_are_distinct(first: Seq<char>, second: Seq<char>)
    ensures
        weight_field(first) is Some && weight_field(first) == weight_field(second) ==> first
            == second,
        bias_field(first) is Some && bias_field(first) == bias_field(second) ==> first == second,
        weight_field(first) is Some && bias_field(second) is Some ==> weight_field(first)
            != bias_field(second),
{
    reveal_strlit("input_norm");
    reveal_strlit("post_attn_norm");
    reveal_strlit("self_attn.q_proj");
    reveal_strlit("self_attn.k_proj");
    reveal_strlit("self_attn.v_proj");
    reveal_strlit("self_attn.o_proj");
    reveal_strlit("mlp.gate_proj");
    reveal_strlit("mlp.up_proj");
    reveal_strlit("mlp.down_proj");
    reveal_strlit("self_attn.q_bias");
    reveal_strlit("self_attn.k_bias");
    reveal_strlit("self_attn.v_bias");
    if let Some(name) = weight_field(first) {
        assert(name.len() == 10 || name.len() == 11 || name.len() == 13 || name.len() == 14
            || name.len() == 16);
        if name.len() == 16 {
            assert(name[10] == 'q' || name[10] == 'k' || name[10] == 'v' || name[10] == 'o');
            assert(name[12] == 'p');
        }
        if name.len() == 13 {
            assert(name[4] == 'g' || name[4] == 'd');
        }
    }
    if let Some(name) = bias_field(second) {
        assert(name.len() == 16 && name[12] == 'b');
        assert(name[10] == 'q' || name[10] == 'k' || name[10] == 'v');
    }
}

proof fn lemma_top_level_is_distinct(top: Seq<char>)
    requires
        top_level_field(top) is Some,
    ensures
        top_level_field(top) matches Some(name) ==> name.len() >= 7 && !(name[0] == 'l' && name[1]
            == 'a'),
{
    reveal_strlit("token_embedding");
    reveal_strlit("final_norm");
    reveal_strlit("lm_head");
}

/// No two tensors of a file get the same canonical name.
pub proof fn canonical_names_are_distinct(first: Seq<char>, second: Seq<char>)
    requires
        canonical_name(first) is Ok,
        canonical_name(first) == canonical_name(second),
    ensures
        first == second,
{
    lemma_origin(first);
    lemma_origin(second);
    let name = canonical_name(first)->Ok_0;
    if name.len() > 7 && name[0] == 'l' && name[1] == 'a' {
        assert forall|top: Seq<char>| #[trigger] top_level_field(top) != Some(name) by {
            if top_level_field(top) is Some {
                lemma_top_level_is_distinct(top);
            }
        }
        assert forall|layer: Seq<char>, field: Seq<char>|
            denotes_u64(layer) && name == #[trigger] layer_name(layer, field) implies split_at_first(
            name.skip(7),
            '.',
        ) == Some((layer, field)) by {
            lemma_layer_name_parts(layer, field);
        }
        let (layer, canonical) = split_at_first(name.skip(7), '.').unwrap();
        assert forall|one: Seq<char>, other: Seq<char>| #![trigger weight_field(one), weight_field(other)]
            weight_field(one) == Some(canonical) && weight_field(other) == Some(canonical) implies one
            == other by {
            lemma_fields_are_distinct(one, other);
        }
        assert forall|one: Seq<char>, other: Seq<char>| #![trigger bias_field(one), bias_field(other)]
            bias_field(one) == Some(canonical) && bias_field(other) == Some(canonical) implies one
            == other by {
            lemma_fields_are_distinct(one, other);
        }
        assert forall|one: Seq<char>, other: Seq<char>| #![trigger weight_field(one), bias_field(other)]
            !(weight_field(one) == Some(canonical) && bias_field(other) == Some(canonical)) by {
            lemma_fields_are_distinct(one, other);
        }
    } else {
        assert forall|layer: Seq<char>, field: Seq<char>| denotes_u64(layer) implies name
            != #[trigger] layer_name(layer, field) by {
            lemma_layer_name_parts(layer, field);
        }
        let one = choose|top: Seq<char>| #[trigger]
            top_level_field(top) == Some(name) && first == top + ".weight"@;
        let other = choose|top: Seq<char>| #[trigger]
            top_level_field(top) == Some(name) && second == top + ".weight"@;
        reveal_strlit("token_embedding");
        reveal_strlit("final_norm");
        reveal_strlit("lm_head");
        assert(name.len() == 15 || name.len() == 10 || name.len() == 7);
        assert(one == other);
    }
}

} // verus!
