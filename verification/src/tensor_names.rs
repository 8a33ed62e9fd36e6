//! The names of a Qwen2 file's tensors, one by one.

use vstd::prelude::*;

use crate::error::{ErrorView, IngestionErrorKind};
use crate::naming::{bias_field, bias_name, canonical_name, layer_fields_are_named, layer_name};
use crate::naming::{lemma_origin, top_level_field, top_level_tensors_are_named, weight_field};
use crate::naming::weight_name;
use crate::text::{all_digits, decimal_text, denotes_u64, digits_value, ends_with};
use crate::text::{numeral_digits, parts_make_up_the_text, split_at_first};

verus! {

/// The file's name of a tensor in a layer.
pub open spec fn in_layer(layer: Seq<char>, rest: Seq<char>) -> Seq<char> {
    "blk."@ + layer + rest
}

/// The canonical name of a tensor in a layer.
pub open spec fn canonical_in_layer(layer: Seq<char>, rest: Seq<char>) -> Seq<char> {
    "layers."@ + layer + rest
}

/// What the fields of a layer are made of.
proof fn lemma_field_letters()
    ensures
        "attn_norm"@ == seq!['a', 't', 't', 'n', '_', 'n', 'o', 'r', 'm'],
        "ffn_norm"@ == seq!['f', 'f', 'n', '_', 'n', 'o', 'r', 'm'],
        "attn_q"@ == seq!['a', 't', 't', 'n', '_', 'q'],
        "attn_k"@ == seq!['a', 't', 't', 'n', '_', 'k'],
        "attn_v"@ == seq!['a', 't', 't', 'n', '_', 'v'],
        "attn_output"@ == seq!['a', 't', 't', 'n', '_', 'o', 'u', 't', 'p', 'u', 't'],
        "ffn_gate"@ == seq!['f', 'f', 'n', '_', 'g', 'a', 't', 'e'],
        "ffn_up"@ == seq!['f', 'f', 'n', '_', 'u', 'p'],
        "ffn_down"@ == seq!['f', 'f', 'n', '_', 'd', 'o', 'w', 'n'],
{
    reveal_strlit("attn_norm");
    reveal_strlit("ffn_norm");
    reveal_strlit("attn_q");
    reveal_strlit("attn_k");
    reveal_strlit("attn_v");
    reveal_strlit("attn_output");
    reveal_strlit("ffn_gate");
    reveal_strlit("ffn_up");
    reveal_strlit("ffn_down");
    assert("attn_norm"@ =~= seq!['a', 't', 't', 'n', '_', 'n', 'o', 'r', 'm']);
    assert("ffn_norm"@ =~= seq!['f', 'f', 'n', '_', 'n', 'o', 'r', 'm']);
    assert("attn_q"@ =~= seq!['a', 't', 't', 'n', '_', 'q']);
    assert("attn_k"@ =~= seq!['a', 't', 't', 'n', '_', 'k']);
    assert("attn_v"@ =~= seq!['a', 't', 't', 'n', '_', 'v']);
    assert("attn_output"@ =~= seq!['a', 't', 't', 'n', '_', 'o', 'u', 't', 'p', 'u', 't']);
    assert("ffn_gate"@ =~= seq!['f', 'f', 'n', '_', 'g', 'a', 't', 'e']);
    assert("ffn_up"@ =~= seq!['f', 'f', 'n', '_', 'u', 'p']);
    assert("ffn_down"@ =~= seq!['f', 'f', 'n', '_', 'd', 'o', 'w', 'n']);
}

/// The fields of a layer are all different.
pub(crate) proof fn weight_fields_differ()
    ensures
        weight_field("attn_norm"@) == Some("input_norm"@),
        weight_field("ffn_norm"@) == Some("post_attn_norm"@),
        weight_field("attn_q"@) == Some("self_attn.q_proj"@),
        weight_field("attn_k"@) == Some("self_attn.k_proj"@),
        weight_field("attn_v"@) == Some("self_attn.v_proj"@),
        weight_field("attn_output"@) == Some("self_attn.o_proj"@),
        weight_field("ffn_gate"@) == Some("mlp.gate_proj"@),
        weight_field("ffn_up"@) == Some("mlp.up_proj"@),
        weight_field("ffn_down"@) == Some("mlp.down_proj"@),
        bias_field("attn_q"@) == Some("self_attn.q_bias"@),
        bias_field("attn_k"@) == Some("self_attn.k_bias"@),
        bias_field("attn_v"@) == Some("self_attn.v_bias"@),
{
    lemma_field_letters();
    assert("attn_norm"@[5] == 'n' && "attn_q"@[5] == 'q' && "attn_k"@[5] == 'k');
    assert("attn_v"@[5] == 'v' && "attn_output"@[5] == 'o');
    assert("ffn_norm"@[4] == 'n' && "ffn_gate"@[4] == 'g' && "ffn_up"@[4] == 'u');
    assert("ffn_down"@[4] == 'd');
    assert("attn_norm"@[0] == 'a' && "attn_q"@[0] == 'a' && "attn_k"@[0] == 'a');
    assert("attn_v"@[0] == 'a' && "attn_output"@[0] == 'a');
    assert("ffn_norm"@[0] == 'f' && "ffn_gate"@[0] == 'f' && "ffn_up"@[0] == 'f');
    assert("ffn_down"@[0] == 'f');
}

/// Whether a tensor gets a name.
#[verifier::opaque]
pub open spec fn is_named(raw: Seq<char>, canonical: Seq<char>) -> bool {
    canonical_name(raw) == Ok::<_, ErrorView>(canonical)
}

/// A weight of a layer, with its name spelled out.
proof fn lemma_weight_is_named(
    layer: Seq<char>,
    field: Seq<char>,
    canonical: Seq<char>,
    rest: Seq<char>,
    canonical_rest: Seq<char>,
)
    requires
        denotes_u64(layer),
        weight_field(field) == Some(canonical),
        rest == "."@ + field + ".weight"@,
        canonical_rest == "."@ + canonical,
    ensures
        is_named(in_layer(layer, rest), canonical_in_layer(layer, canonical_rest)),
{
    reveal(is_named);
    layer_fields_are_named(layer, field);
    assert(weight_name(layer, field) =~= in_layer(layer, rest));
    assert(layer_name(layer, canonical) =~= canonical_in_layer(layer, canonical_rest));
}

/// A bias of a layer, with its name spelled out.
proof fn lemma_bias_is_named(
    layer: Seq<char>,
    field: Seq<char>,
    canonical: Seq<char>,
    rest: Seq<char>,
    canonical_rest: Seq<char>,
)
    requires
        denotes_u64(layer),
        bias_field(field) == Some(canonical),
        rest == "."@ + field + ".bias"@,
        canonical_rest == "."@ + canonical,
    ensures
        is_named(in_layer(layer, rest), canonical_in_layer(layer, canonical_rest)),
{
    reveal(is_named);
    layer_fields_are_named(layer, field);
    assert(bias_name(layer, field) =~= in_layer(layer, rest));
    assert(layer_name(layer, canonical) =~= canonical_in_layer(layer, canonical_rest));
}

/// Every tensor of an attention block has the name that it is resolved by, in every layer.
pub proof fn attention_tensors_have_their_names(layer: Seq<char>)
    requires
        denotes_u64(layer),
    ensures
        is_named(in_layer(layer, ".attn_norm.weight"@), canonical_in_layer(layer, ".input_norm"@)),
        is_named(in_layer(layer, ".attn_q.weight"@), canonical_in_layer(layer, ".self_attn.q_proj"@)),
        is_named(in_layer(layer, ".attn_k.weight"@), canonical_in_layer(layer, ".self_attn.k_proj"@)),
        is_named(in_layer(layer, ".attn_v.weight"@), canonical_in_layer(layer, ".self_attn.v_proj"@)),
        is_named(in_layer(layer, ".attn_output.weight"@), canonical_in_layer(layer, ".self_attn.o_proj"@)),
        is_named(in_layer(layer, ".attn_q.bias"@), canonical_in_layer(layer, ".self_attn.q_bias"@)),
        is_named(in_layer(layer, ".attn_k.bias"@), canonical_in_layer(layer, ".self_attn.k_bias"@)),
        is_named(in_layer(layer, ".attn_v.bias"@), canonical_in_layer(layer, ".self_attn.v_bias"@)),
{
    weight_fields_differ();
    assert(".attn_norm.weight"@ =~= "."@ + "attn_norm"@ + ".weight"@ && ".input_norm"@ =~= "."@ + "input_norm"@) by {
        reveal_strlit(".");
        reveal_strlit(".weight");
        reveal_strlit(".attn_norm.weight");
        reveal_strlit("attn_norm");
        reveal_strlit(".input_norm");
        reveal_strlit("input_norm");
    }
    lemma_weight_is_named(layer, "attn_norm"@, "input_norm"@, ".attn_norm.weight"@, ".input_norm"@);
    assert(".attn_q.weight"@ =~= "."@ + "attn_q"@ + ".weight"@ && ".self_attn.q_proj"@ =~= "."@ + "self_attn.q_proj"@) by {
        reveal_strlit(".");
        reveal_strlit(".weight");
        reveal_strlit(".attn_q.weight");
        reveal_strlit("attn_q");
        reveal_strlit(".self_attn.q_proj");
        reveal_strlit("self_attn.q_proj");
    }
    lemma_weight_is_named(layer, "attn_q"@, "self_attn.q_proj"@, ".attn_q.weight"@, ".self_attn.q_proj"@);
    assert(".attn_k.weight"@ =~= "."@ + "attn_k"@ + ".weight"@ && ".self_attn.k_proj"@ =~= "."@ + "self_attn.k_proj"@) by {
        reveal_strlit(".");
        reveal_strlit(".weight");
        reveal_strlit(".attn_k.weight");
        reveal_strlit("attn_k");
        reveal_strlit(".self_attn.k_proj");
        reveal_strlit("self_attn.k_proj");
    }
    lemma_weight_is_named(layer, "attn_k"@, "self_attn.k_proj"@, ".attn_k.weight"@, ".self_attn.k_proj"@);
    assert(".attn_v.weight"@ =~= "."@ + "attn_v"@ + ".weight"@ && ".self_attn.v_proj"@ =~= "."@ + "self_attn.v_proj"@) by {
        reveal_strlit(".");
        reveal_strlit(".weight");
        reveal_strlit(".attn_v.weight");
        reveal_strlit("attn_v");
        reveal_strlit(".self_attn.v_proj");
        reveal_strlit("self_attn.v_proj");
    }
    lemma_weight_is_named(layer, "attn_v"@, "self_attn.v_proj"@, ".attn_v.weight"@, ".self_attn.v_proj"@);
    assert(".attn_output.weight"@ =~= "."@ + "attn_output"@ + ".weight"@ && ".self_attn.o_proj"@ =~= "."@ + "self_attn.o_proj"@) by {
        reveal_strlit(".");
        reveal_strlit(".weight");
        reveal_strlit(".attn_output.weight");
        reveal_strlit("attn_output");
        reveal_strlit(".self_attn.o_proj");
        reveal_strlit("self_attn.o_proj");
    }
    lemma_weight_is_named(layer, "attn_output"@, "self_attn.o_proj"@, ".attn_output.weight"@, ".self_attn.o_proj"@);
    assert(".attn_q.bias"@ =~= "."@ + "attn_q"@ + ".bias"@ && ".self_attn.q_bias"@ =~= "."@ + "self_attn.q_bias"@) by {
        reveal_strlit(".");
        reveal_strlit(".bias");
        reveal_strlit(".attn_q.bias");
        reveal_strlit("attn_q");
        reveal_strlit(".self_attn.q_bias");
        reveal_strlit("self_attn.q_bias");
    }
    lemma_bias_is_named(layer, "attn_q"@, "self_attn.q_bias"@, ".attn_q.bias"@, ".self_attn.q_bias"@);
    assert(".attn_k.bias"@ =~= "."@ + "attn_k"@ + ".bias"@ && ".self_attn.k_bias"@ =~= "."@ + "self_attn.k_bias"@) by {
        reveal_strlit(".");
        reveal_strlit(".bias");
        reveal_strlit(".attn_k.bias");
        reveal_strlit("attn_k");
        reveal_strlit(".self_attn.k_bias");
        reveal_strlit("self_attn.k_bias");
    }
    lemma_bias_is_named(layer, "attn_k"@, "self_attn.k_bias"@, ".attn_k.bias"@, ".self_attn.k_bias"@);
    assert(".attn_v.bias"@ =~= "."@ + "attn_v"@ + ".bias"@ && ".self_attn.v_bias"@ =~= "."@ + "self_attn.v_bias"@) by {
        reveal_strlit(".");
        reveal_strlit(".bias");
        reveal_strlit(".attn_v.bias");
        reveal_strlit("attn_v");
        reveal_strlit(".self_attn.v_bias");
        reveal_strlit("self_attn.v_bias");
    }
    lemma_bias_is_named(layer, "attn_v"@, "self_attn.v_bias"@, ".attn_v.bias"@, ".self_attn.v_bias"@);
}

/// Every tensor of a feed-forward block has the name that it is resolved by, in every layer.
pub proof fn feed_forward_tensors_have_their_names(layer: Seq<char>)
    requires
        denotes_u64(layer),
    ensures
        is_named(in_layer(layer, ".ffn_norm.weight"@), canonical_in_layer(layer, ".post_attn_norm"@)),
        is_named(in_layer(layer, ".ffn_gate.weight"@), canonical_in_layer(layer, ".mlp.gate_proj"@)),
        is_named(in_layer(layer, ".ffn_up.weight"@), canonical_in_layer(layer, ".mlp.up_proj"@)),
        is_named(in_layer(layer, ".ffn_down.weight"@), canonical_in_layer(layer, ".mlp.down_proj"@)),
{
    weight_fields_differ();
    assert(".ffn_norm.weight"@ =~= "."@ + "ffn_norm"@ + ".weight"@ && ".post_attn_norm"@ =~= "."@ + "post_attn_norm"@) by {
        reveal_strlit(".");
        reveal_strlit(".weight");
        reveal_strlit(".ffn_norm.weight");
        reveal_strlit("ffn_norm");
        reveal_strlit(".post_attn_norm");
        reveal_strlit("post_attn_norm");
    }
    lemma_weight_is_named(layer, "ffn_norm"@, "post_attn_norm"@, ".ffn_norm.weight"@, ".post_attn_norm"@);
    assert(".ffn_gate.weight"@ =~= "."@ + "ffn_gate"@ + ".weight"@ && ".mlp.gate_proj"@ =~= "."@ + "mlp.gate_proj"@) by {
        reveal_strlit(".");
        reveal_strlit(".weight");
        reveal_strlit(".ffn_gate.weight");
        reveal_strlit("ffn_gate");
        reveal_strlit(".mlp.gate_proj");
        reveal_strlit("mlp.gate_proj");
    }
    lemma_weight_is_named(layer, "ffn_gate"@, "mlp.gate_proj"@, ".ffn_gate.weight"@, ".mlp.gate_proj"@);
    assert(".ffn_up.weight"@ =~= "."@ + "ffn_up"@ + ".weight"@ && ".mlp.up_proj"@ =~= "."@ + "mlp.up_proj"@) by {
        reveal_strlit(".");
        reveal_strlit(".weight");
        reveal_strlit(".ffn_up.weight");
        reveal_strlit("ffn_up");
        reveal_strlit(".mlp.up_proj");
        reveal_strlit("mlp.up_proj");
    }
    lemma_weight_is_named(layer, "ffn_up"@, "mlp.up_proj"@, ".ffn_up.weight"@, ".mlp.up_proj"@);
    assert(".ffn_down.weight"@ =~= "."@ + "ffn_down"@ + ".weight"@ && ".mlp.down_proj"@ =~= "."@ + "mlp.down_proj"@) by {
        reveal_strlit(".");
        reveal_strlit(".weight");
        reveal_strlit(".ffn_down.weight");
        reveal_strlit("ffn_down");
        reveal_strlit(".mlp.down_proj");
        reveal_strlit("mlp.down_proj");
    }
    lemma_weight_is_named(layer, "ffn_down"@, "mlp.down_proj"@, ".ffn_down.weight"@, ".mlp.down_proj"@);
}

/// The three tensors outside every layer have the names that they are resolved by.
pub proof fn outer_tensors_have_their_names()
    ensures
        is_named("token_embd.weight"@, "token_embedding"@),
        is_named("output_norm.weight"@, "final_norm"@),
        is_named("output.weight"@, "lm_head"@),
{
    reveal(is_named);
    reveal_strlit(".weight");
    reveal_strlit("token_embd");
    reveal_strlit("output_norm");
    reveal_strlit("output");
    assert("token_embd"@.len() == 10 && "output_norm"@.len() == 11 && "output"@.len() == 6);
    assert("token_embd.weight"@ =~= "token_embd"@ + ".weight"@) by {
        reveal_strlit("token_embd.weight");
    }
    assert("output_norm.weight"@ =~= "output_norm"@ + ".weight"@) by {
        reveal_strlit("output_norm.weight");
    }
    assert("output.weight"@ =~= "output"@ + ".weight"@) by {
        reveal_strlit("output.weight");
    }
    top_level_tensors_are_named("token_embd"@);
    top_level_tensors_are_named("output_norm"@);
    top_level_tensors_are_named("output"@);
}

/// Whether a name is that of one of a layer's tensors.
pub open spec fn is_layer_tensor(layer: Seq<char>, raw: Seq<char>) -> bool {
    ||| raw == in_layer(layer, ".attn_norm.weight"@)
    ||| raw == in_layer(layer, ".attn_q.weight"@)
    ||| raw == in_layer(layer, ".attn_k.weight"@)
    ||| raw == in_layer(layer, ".attn_v.weight"@)
    ||| raw == in_layer(layer, ".attn_output.weight"@)
    ||| raw == in_layer(layer, ".ffn_norm.weight"@)
    ||| raw == in_layer(layer, ".ffn_gate.weight"@)
    ||| raw == in_layer(layer, ".ffn_up.weight"@)
    ||| raw == in_layer(layer, ".ffn_down.weight"@)
    ||| raw == in_layer(layer, ".attn_q.bias"@)
    ||| raw == in_layer(layer, ".attn_k.bias"@)
    ||| raw == in_layer(layer, ".attn_v.bias"@)
}

/// A tensor is only recognized by one of the names above: outside every layer there are three,
/// and in a layer, counted by a number of 64 bits, nine weights and three biases.
pub proof fn other_tensors_are_refused(raw: Seq<char>)
    ensures
        canonical_name(raw) is Ok ==> {
            ||| raw == "token_embd.weight"@
            ||| raw == "output_norm.weight"@
            ||| raw == "output.weight"@
            ||| exists|layer: Seq<char>| denotes_u64(layer) && #[trigger] is_layer_tensor(layer, raw)
        },
{
    if canonical_name(raw) is Ok {
        let name = canonical_name(raw)->Ok_0;
        lemma_origin(raw);
        if exists|top: Seq<char>| #[trigger]
            top_level_field(top) == Some(name) && raw == top + ".weight"@ {
            reveal_strlit(".weight");
            assert("token_embd.weight"@ =~= "token_embd"@ + ".weight"@) by {
                reveal_strlit("token_embd.weight");
                reveal_strlit("token_embd");
            }
            assert("output_norm.weight"@ =~= "output_norm"@ + ".weight"@) by {
                reveal_strlit("output_norm.weight");
                reveal_strlit("output_norm");
            }
            assert("output.weight"@ =~= "output"@ + ".weight"@) by {
                reveal_strlit("output.weight");
                reveal_strlit("output");
            }
        } else if exists|layer: Seq<char>, field: Seq<char>| #[trigger]
            weight_name(layer, field) == raw && denotes_u64(layer) && weight_field(field) is Some
                && name == layer_name(layer, weight_field(field).unwrap()) {
            let (layer, field) = choose|layer: Seq<char>, field: Seq<char>| #[trigger]
                weight_name(layer, field) == raw && denotes_u64(layer) && weight_field(field)
                    is Some && name == layer_name(layer, weight_field(field).unwrap());
            lemma_layer_weight(layer, field);
        } else {
            let (layer, field) = choose|layer: Seq<char>, field: Seq<char>| #[trigger]
                bias_name(layer, field) == raw && denotes_u64(layer) && bias_field(field) is Some
                    && name == layer_name(layer, bias_field(field).unwrap());
            lemma_layer_bias(layer, field);
        }
    }
}

proof fn lemma_layer_weight(layer: Seq<char>, field: Seq<char>)
    requires
        weight_field(field) is Some,
    ensures
        is_layer_tensor(layer, weight_name(layer, field)),
{
    reveal_strlit(".");
    reveal_strlit(".weight");
    if field == "attn_norm"@ {
        assert(".attn_norm.weight"@ =~= "."@ + "attn_norm"@ + ".weight"@) by {
            reveal_strlit(".attn_norm.weight");
            reveal_strlit("attn_norm");
        }
        assert(weight_name(layer, field) =~= in_layer(layer, ".attn_norm.weight"@));
    }
    if field == "attn_q"@ {
        assert(".attn_q.weight"@ =~= "."@ + "attn_q"@ + ".weight"@) by {
            reveal_strlit(".attn_q.weight");
            reveal_strlit("attn_q");
        }
        assert(weight_name(layer, field) =~= in_layer(layer, ".attn_q.weight"@));
    }
    if field == "attn_k"@ {
        assert(".attn_k.weight"@ =~= "."@ + "attn_k"@ + ".weight"@) by {
            reveal_strlit(".attn_k.weight");
            reveal_strlit("attn_k");
        }
        assert(weight_name(layer, field) =~= in_layer(layer, ".attn_k.weight"@));
    }
    if field == "attn_v"@ {
        assert(".attn_v.weight"@ =~= "."@ + "attn_v"@ + ".weight"@) by {
            reveal_strlit(".attn_v.weight");
            reveal_strlit("attn_v");
        }
        assert(weight_name(layer, field) =~= in_layer(layer, ".attn_v.weight"@));
    }
    if field == "attn_output"@ {
        assert(".attn_output.weight"@ =~= "."@ + "attn_output"@ + ".weight"@) by {
            reveal_strlit(".attn_output.weight");
            reveal_strlit("attn_output");
        }
        assert(weight_name(layer, field) =~= in_layer(layer, ".attn_output.weight"@));
    }
    if field == "ffn_norm"@ {
        assert(".ffn_norm.weight"@ =~= "."@ + "ffn_norm"@ + ".weight"@) by {
            reveal_strlit(".ffn_norm.weight");
            reveal_strlit("ffn_norm");
        }
        assert(weight_name(layer, field) =~= in_layer(layer, ".ffn_norm.weight"@));
    }
    if field == "ffn_gate"@ {
        assert(".ffn_gate.weight"@ =~= "."@ + "ffn_gate"@ + ".weight"@) by {
            reveal_strlit(".ffn_gate.weight");
            reveal_strlit("ffn_gate");
        }
        assert(weight_name(layer, field) =~= in_layer(layer, ".ffn_gate.weight"@));
    }
    if field == "ffn_up"@ {
        assert(".ffn_up.weight"@ =~= "."@ + "ffn_up"@ + ".weight"@) by {
            reveal_strlit(".ffn_up.weight");
            reveal_strlit("ffn_up");
        }
        assert(weight_name(layer, field) =~= in_layer(layer, ".ffn_up.weight"@));
    }
    if field == "ffn_down"@ {
        assert(".ffn_down.weight"@ =~= "."@ + "ffn_down"@ + ".weight"@) by {
            reveal_strlit(".ffn_down.weight");
            reveal_strlit("ffn_down");
        }
        assert(weight_name(layer, field) =~= in_layer(layer, ".ffn_down.weight"@));
    }
}

proof fn lemma_layer_bias(layer: Seq<char>, field: Seq<char>)
    requires
        bias_field(field) is Some,
    ensures
        is_layer_tensor(layer, bias_name(layer, field)),
{
    reveal_strlit(".");
    reveal_strlit(".bias");
    if field == "attn_q"@ {
        assert(".attn_q.bias"@ =~= "."@ + "attn_q"@ + ".bias"@) by {
            reveal_strlit(".attn_q.bias");
            reveal_strlit("attn_q");
        }
        assert(bias_name(layer, field) =~= in_layer(layer, ".attn_q.bias"@));
    }
    if field == "attn_k"@ {
        assert(".attn_k.bias"@ =~= "."@ + "attn_k"@ + ".bias"@) by {
            reveal_strlit(".attn_k.bias");
            reveal_strlit("attn_k");
        }
        assert(bias_name(layer, field) =~= in_layer(layer, ".attn_k.bias"@));
    }
    if field == "attn_v"@ {
        assert(".attn_v.bias"@ =~= "."@ + "attn_v"@ + ".bias"@) by {
            reveal_strlit(".attn_v.bias");
            reveal_strlit("attn_v");
        }
        assert(bias_name(layer, field) =~= in_layer(layer, ".attn_v.bias"@));
    }
}

/// Every refusal begins with the name that is refused. A bias that is not supported is an
/// unsupported format, and any other name malformed metadata.
pub proof fn refusals_cite_the_name(raw: Seq<char>)
    ensures
        canonical_name(raw) matches Err((kind, text)) ==> {
            let citation = "tensor '"@ + raw + "'"@;
            &&& kind == if ends_with(raw, ".bias"@) {
                IngestionErrorKind::UnsupportedFormat
            } else {
                IngestionErrorKind::MalformedMetadata
            }
            &&& citation.len() <= text.len()
            &&& text.take(citation.len() as int) == citation
        },
{
    if let Err((kind, text)) = canonical_name(raw) {
        let stem = raw.take(raw.len() - 5);
        let rest = raw.take(raw.len() - 7).skip(4);
        let parts = split_at_first(rest, '.');
        let layer = parts->Some_0.0;
        let field = parts->Some_0.1;
        reveal_strlit(".bias");
        reveal_strlit(".weight");
        reveal_strlit("blk.");
        assert("' is a bias term for '"@.len() > 0 && "' is a bias term for '"@[0] == '\'') by {
            reveal_strlit("' is a bias term for '");
        }
        assert("' does not end in '.weight' or '.bias'"@.len() > 0 && "' does not end in '.weight' or '.bias'"@[0] == '\'') by {
            reveal_strlit("' does not end in '.weight' or '.bias'");
        }
        assert("' does not match any recognized Qwen2 GGUF tensor name shape"@.len() > 0 && "' does not match any recognized Qwen2 GGUF tensor name shape"@[0] == '\'') by {
            reveal_strlit("' does not match any recognized Qwen2 GGUF tensor name shape");
        }
        assert("' has an unrecognized per-layer name shape"@.len() > 0 && "' has an unrecognized per-layer name shape"@[0] == '\'') by {
            reveal_strlit("' has an unrecognized per-layer name shape");
        }
        assert("' has a non-numeric layer index '"@.len() > 0 && "' has a non-numeric layer index '"@[0] == '\'') by {
            reveal_strlit("' has a non-numeric layer index '");
        }
        assert("' names an unrecognized per-layer field '"@.len() > 0 && "' names an unrecognized per-layer field '"@[0] == '\'') by {
            reveal_strlit("' names an unrecognized per-layer field '");
        }
        if ends_with(raw, ".bias"@) {
            lemma_citation(
                raw,
                "' is a bias term for '"@,
                stem,
                "'; the production Qwen Component graph only supports attention q/k/v bias terms"@,
            );
        } else {
            lemma_citation(raw, "' does not end in '.weight' or '.bias'"@, seq![], seq![]);
            lemma_citation(
                raw,
                "' does not match any recognized Qwen2 GGUF tensor name shape"@,
                seq![],
                seq![],
            );
            lemma_citation(raw, "' has an unrecognized per-layer name shape"@, seq![], seq![]);
            lemma_citation(raw, "' has a non-numeric layer index '"@, layer, "'"@);
            lemma_citation(raw, "' names an unrecognized per-layer field '"@, field, "'"@);
        }
    }
}

proof fn lemma_citation(raw: Seq<char>, rest: Seq<char>, middle: Seq<char>, end: Seq<char>)
    requires
        rest.len() > 0,
        rest[0] == '\'',
    ensures
        ({
            let citation = "tensor '"@ + raw + "'"@;
            let text = "tensor '"@ + raw + rest + middle + end;
            &&& citation.len() <= text.len()
            &&& text.take(citation.len() as int) == citation
            &&& citation.len() <= ("tensor '"@ + raw + rest).len()
            &&& ("tensor '"@ + raw + rest).take(citation.len() as int) == citation
        }),
{
    reveal_strlit("'");
    let citation = "tensor '"@ + raw + "'"@;
    assert(("tensor '"@ + raw + rest).take(citation.len() as int) =~= citation);
    assert(("tensor '"@ + raw + rest + middle + end).take(citation.len() as int) =~= citation);
}

/// The digits of a number denote it: every one is a digit, the first is no zero unless it is the
/// only one, and the last is the number's remainder by ten.
pub proof fn decimals_denote_their_number(number: nat)
    ensures
        decimal_text(number).len() > 0,
        all_digits(decimal_text(number)),
        digits_value(decimal_text(number)) == number,
        decimal_text(number).last() as u32 == 48 + number % 10,
        number > 0 ==> decimal_text(number)[0] != '0',
    decreases number,
{
    if number >= 10 {
        decimals_denote_their_number(number / 10);
        let front = decimal_text(number / 10);
        let text = decimal_text(number);
        assert(text.drop_last() =~= front);
        assert forall|i: int| 0 <= i < text.len() implies '0' <= #[trigger] text[i] <= '9' by {
            if i < front.len() {
                assert(text[i] == front[i]);
            }
        }
    } else {
        let text = decimal_text(number);
        assert(text.drop_last() =~= Seq::<char>::empty());
        assert(digits_value(text.drop_last()) == 0);
    }
}

/// What counts as the number of a layer: decimal digits of a number of 64 bits, with zeros and
/// one plus sign allowed in front, and nothing else.
pub proof fn layers_are_counted_in_decimal(number: nat, text: Seq<char>)
    ensures
        denotes_u64(decimal_text(number)) <==> number <= u64::MAX,
        !denotes_u64(Seq::empty()),
        text.len() > 0 && text[0] != '+' ==> denotes_u64(seq!['0'] + text) == denotes_u64(text),
        text.len() > 0 && text[0] != '+' ==> denotes_u64(seq!['+'] + text) == denotes_u64(text),
        (exists|i: int| 0 < i < text.len() && !('0' <= #[trigger] text[i] <= '9')) ==> !denotes_u64(
            text,
        ),
        text.len() > 0 && text[0] != '+' && !('0' <= text[0] <= '9') ==> !denotes_u64(text),
        !denotes_u64(seq!['+']),
{
    decimals_denote_their_number(number);
    let plain = decimal_text(number);
    assert('0' <= plain[0] <= '9');
    assert(numeral_digits(plain) == plain);
    if exists|i: int| 0 < i < text.len() && !('0' <= #[trigger] text[i] <= '9') {
        let i = choose|i: int| 0 < i < text.len() && !('0' <= #[trigger] text[i] <= '9');
        if text[0] == '+' {
            assert(numeral_digits(text)[i - 1] == text[i]);
        } else {
            assert(numeral_digits(text)[i] == text[i]);
        }
    }
    if text.len() > 0 && text[0] != '+' {
        let zero = seq!['0'] + text;
        let plus = seq!['+'] + text;
        assert(plus.skip(1) =~= text);
        assert(numeral_digits(plus) == text);
        assert(numeral_digits(text) == text);
        assert(numeral_digits(zero) == zero);
        lemma_leading_zero(text);
        if all_digits(zero) {
            assert forall|i: int| 0 <= i < text.len() implies '0' <= #[trigger] text[i] <= '9' by {
                assert(zero[i + 1] == text[i]);
            }
        }
        if all_digits(text) {
            assert forall|i: int| 0 <= i < zero.len() implies '0' <= #[trigger] zero[i] <= '9' by {
                if i > 0 {
                    assert(zero[i] == text[i - 1]);
                }
            }
        }
    }
    assert(seq!['+'].skip(1) =~= Seq::<char>::empty());
}

/// A zero in front changes no number.
proof fn lemma_leading_zero(text: Seq<char>)
    ensures
        digits_value(seq!['0'] + text) == digits_value(text),
    decreases text.len(),
{
    let zero = seq!['0'] + text;
    if text.len() == 0 {
        assert(zero =~= seq!['0']);
        assert(zero.drop_last() =~= Seq::<char>::empty());
        assert(digits_value(zero.drop_last()) == 0);
    } else {
        lemma_leading_zero(text.drop_last());
        assert(zero.drop_last() =~= seq!['0'] + text.drop_last());
        assert(zero.last() == text.last());
    }
}

/// A name that is neither that of a weight nor that of a bias is refused for that, and so is every
/// bias but those of the attention inputs.
pub proof fn other_endings_are_cited(raw: Seq<char>, stem: Seq<char>)
    ensures
        !ends_with(raw, ".bias"@) && !ends_with(raw, ".weight"@) ==> canonical_name(raw)
            == malformed_name("tensor '"@ + raw + "' does not end in '.weight' or '.bias'"@),
        raw == stem + ".bias"@ && canonical_name(raw) is Err ==> canonical_name(raw) == Err::<
            Seq<char>,
            _,
        >(
            (
                IngestionErrorKind::UnsupportedFormat,
                "tensor '"@ + raw + "' is a bias term for '"@ + stem
                    + "'; the production Qwen Component graph only supports attention q/k/v bias terms"@,
            ),
        ),
{
    parts_make_up_the_text(raw, stem, ".bias"@, '.');
}

/// A refusal of a name as malformed.
pub open spec fn malformed_name(text: Seq<char>) -> Result<Seq<char>, ErrorView> {
    Err((IngestionErrorKind::MalformedMetadata, text))
}

/// A weight of a layer is refused for what counts the layer, where that is no number, and else for
/// its field, where that is none of a layer's.
pub proof fn other_layers_are_cited(layer: Seq<char>, field: Seq<char>)
    requires
        !layer.contains('.'),
    ensures
        ({
            let raw = "blk."@ + layer + "."@ + field + ".weight"@;
            &&& !denotes_u64(layer) ==> canonical_name(raw) == malformed_name(
                "tensor '"@ + raw + "' has a non-numeric layer index '"@ + layer + "'"@,
            )
            &&& denotes_u64(layer) && canonical_name(raw) is Err ==> canonical_name(raw)
                == malformed_name(
                "tensor '"@ + raw + "' names an unrecognized per-layer field '"@ + field + "'"@,
            )
        }),
{
    let raw = "blk."@ + layer + "."@ + field + ".weight"@;
    let name = "blk."@ + layer + "."@ + field;
    let rest = layer + "."@ + field;
    reveal_strlit(".");
    assert("."@ =~= seq!['.']);
    parts_make_up_the_text(raw, name, ".weight"@, '.');
    assert(name =~= "blk."@ + rest);
    parts_make_up_the_text(name, "blk."@, rest, '.');
    parts_make_up_the_text(rest, layer, field, '.');
    assert(!ends_with(raw, ".bias"@)) by {
        reveal_strlit(".bias");
        reveal_strlit(".weight");
        assert(raw.last() == 't');
        if ends_with(raw, ".bias"@) {
            assert(raw.skip(raw.len() - 5)[4] == 's');
        }
    }
    assert(top_level_field(name) is None) by {
        reveal_strlit("blk.");
        reveal_strlit("token_embd");
        reveal_strlit("output_norm");
        reveal_strlit("output");
        assert(name[0] == 'b');
    }
}

} // verus!
