//! What a read of a tensor gives back, element by element.

use vstd::arithmetic::div_mod::{
    lemma_div_by_multiple, lemma_fundamental_div_mod, lemma_mod_bound,
};
use vstd::arithmetic::power2::pow2;
use vstd::prelude::*;

use crate::block_layout::{are_six_bit, is_scaled, q4_k_block, q5_k_block, q8_0_block};
use crate::block_layout::{q4_k_blocks_unpack, q5_k_blocks_unpack, q8_0_blocks_unpack};
use crate::block_layout::{q4_k_blocks_unpack_in_order, q5_k_blocks_unpack_in_order};
use crate::block_layout::q8_0_blocks_unpack_in_order;
use crate::dequantize::{q4_k_value, q4_k_values, q5_k_value, q5_k_values};
use crate::dequantize::{q8_0_value, q8_0_values};
use crate::derived_lm_head::{first_named, has_named, lemma_first_named, tied_head};
use crate::derived_lm_head::{LM_HEAD, TOKEN_EMBEDDING};
use crate::error::{ErrorView, IngestionErrorKind};
use crate::ingestor::prepared;
use crate::metadata::MetadataView;
use crate::model::{element_bytes, is_block_format, DigestView, ModelDType};
use crate::model::{RangeView, TensorView};
use crate::naming::{bias_field, bias_name, canonical_name, canonical_names_are_distinct};
use crate::naming::{layer_fields_are_named, layer_name, lemma_origin, top_level_field};
use crate::naming::{weight_field, weight_name};
use crate::numbers::{half_number, is_half_number, is_single_number, single_number};
use crate::payload::{delivered, following, stored, EventView, ReadView, RequestView};
use crate::pipeline::read_finished;
use crate::properties::{discovered_tensors, ingested_models_have_an_output_head, read_from};
use crate::properties::{ingested_tensors_can_be_read, is_stored_whole};
use crate::properties::{lemma_discovered_names_differ, lemma_embedding_is_no_projection};
use crate::properties::{lemma_projection_shapes, other_tensors_are_unchanged};
use crate::properties::{projections_are_transposed, reads_give_back_tied_heads};
use crate::tensor_names::{in_layer, is_named, outer_tensors_have_their_names};
use crate::tensor_names::weight_fields_differ;
use crate::text::{decimal_text, denotes_u64};
use crate::transpose::{lemma_position_bound, transposed, transposed_element};
use crate::weight_layout::{is_projection, layer_projections, names_projection, relaid};
use crate::weight_layout::{relaid_matrix, top_level_projections, TransposedTensorShape};
use crate::weights::{counted, counting_is_exact, declared_ranges_are_accepted, discovered};
use crate::weights::{discovered_tensor, discovery_describes_every_tensor, element_product};
use crate::weights::{location_of, names_differ, reversal_keeps_elements, source_of};
use crate::weights::TensorSource;

verus! {

/// The 32-bit number that stands at a place, its least significant byte first.
pub open spec fn word(bytes: Seq<u8>, at: int) -> int {
    bytes[at] + 256 * bytes[at + 1] + 65536 * bytes[at + 2] + 16777216 * bytes[at + 3]
}

/// Bit patterns are stored one after another, each in four bytes, the least significant first.
pub proof fn words_are_little_endian(values: Seq<u32>, index: int)
    ensures
        stored(values).len() == 4 * values.len(),
        0 <= index < values.len() ==> word(stored(values), 4 * index) == values[index],
{
    if 0 <= index < values.len() {
        let bytes = stored(values);
        let bits = values[index];
        assert((4 * index) / 4 == index && (4 * index) % 4 == 0);
        assert((4 * index + 1) / 4 == index && (4 * index + 1) % 4 == 1);
        assert((4 * index + 2) / 4 == index && (4 * index + 2) % 4 == 2);
        assert((4 * index + 3) / 4 == index && (4 * index + 3) % 4 == 3);
        assert(bytes[4 * index] == bits % 256);
        assert(bytes[4 * index + 1] == bits / 0x100 % 256);
        assert(bytes[4 * index + 2] == bits / 0x1_0000 % 256);
        assert(bytes[4 * index + 3] == bits / 0x100_0000);
    }
}

/// Whether the elements of a type are packed in blocks.
pub open spec fn is_packed(dtype: ModelDType) -> bool {
    dtype == ModelDType::Q8 || dtype == ModelDType::Q4K || dtype == ModelDType::Q5K
}

/// How many bytes an element of a type takes by itself.
pub open spec fn width(dtype: ModelDType) -> int {
    if dtype == ModelDType::Bool || dtype == ModelDType::U8 || dtype == ModelDType::I8 {
        1
    } else if dtype == ModelDType::U16 || dtype == ModelDType::I16 || dtype == ModelDType::F16
        || dtype == ModelDType::Bf16 {
        2
    } else if dtype == ModelDType::U64 || dtype == ModelDType::I64 || dtype == ModelDType::F64 {
        8
    } else {
        4
    }
}

/// How many elements a block of a type packs.
pub open spec fn packed_elements(dtype: ModelDType) -> int {
    if dtype == ModelDType::Q8 {
        32
    } else {
        256
    }
}

/// How many bytes a block of a type takes.
pub open spec fn packed_bytes(dtype: ModelDType) -> int {
    if dtype == ModelDType::Q8 {
        34
    } else if dtype == ModelDType::Q4K {
        144
    } else {
        176
    }
}

/// The bit pattern of an element of a block.
pub open spec fn packed_element(dtype: ModelDType, block: Seq<u8>, index: int) -> u32 {
    if dtype == ModelDType::Q8 {
        q8_0_value(block, 0, index)
    } else if dtype == ModelDType::Q4K {
        q4_k_value(block, 0, index)
    } else {
        q5_k_value(block, 0, index)
    }
}

/// Three types are packed in blocks; every other has elements of one, two, four or eight bytes.
pub proof fn elements_have_the_width_of_their_type(dtype: ModelDType)
    ensures
        is_block_format(dtype) <==> is_packed(dtype),
        !is_packed(dtype) ==> element_bytes(dtype) == width(dtype),
{
}

/// How the blocks of a type stand in a file, for the types that are packed, and that every other
/// type's bytes stand there as they are.
pub open spec fn is_source_of(source: TensorSource, dtype: ModelDType) -> bool {
    &&& dtype == ModelDType::Q8 <==> source == TensorSource::Q8_0
    &&& dtype == ModelDType::Q4K <==> source == TensorSource::Q4K
    &&& dtype == ModelDType::Q5K <==> source == TensorSource::Q5K
}

/// What is handed out for packed bytes: for every element of every whole block four bytes, which
/// are the bit pattern of that element of that block, in the order of the elements. Other bytes
/// are handed out as they are.
#[verifier::rlimit(50)]
pub proof fn payloads_hold_every_element(
    dtype: ModelDType,
    source: TensorSource,
    raw: Seq<u8>,
    index: int,
)
    requires
        is_source_of(source, dtype),
    ensures
        !is_packed(dtype) ==> delivered(source, raw) == raw,
        is_packed(dtype) ==> {
            let n = packed_elements(dtype);
            let size = packed_bytes(dtype);
            &&& delivered(source, raw).len() == raw.len() as int / size * n * 4
            &&& 0 <= index < raw.len() as int / size * n ==> word(delivered(source, raw), 4 * index)
                == packed_element(
                dtype,
                raw.subrange(index / n * size, index / n * size + size),
                index % n,
            )
        },
{
    if dtype == ModelDType::Q8 {
        q8_0_blocks_unpack_in_order(raw, index);
        words_are_little_endian(q8_0_values(raw), index);
    } else if dtype == ModelDType::Q4K {
        q4_k_blocks_unpack_in_order(raw, index);
        words_are_little_endian(q4_k_values(raw), index);
    } else if dtype == ModelDType::Q5K {
        q5_k_blocks_unpack_in_order(raw, index);
        words_are_little_endian(q5_k_values(raw), index);
    }
}

/// The four bytes of an element of a block.
proof fn lemma_q8_0_word(raw: Seq<u8>, block: int, index: int)
    requires
        0 <= block,
        (block + 1) * 34 <= raw.len(),
        0 <= index < 32,
    ensures
        word(delivered(TensorSource::Q8_0, raw), 4 * (block * 32 + index)) == q8_0_value(
            raw.subrange(block * 34, block * 34 + 34),
            0,
            index,
        ),
{
    let place = block * 32 + index;
    assert(place / 32 == block && place % 32 == index);
    payloads_hold_every_element(ModelDType::Q8, TensorSource::Q8_0, raw, place);
}

/// What a payload holds for a `Q8_0` block of the file: for each of its quants, in their order,
/// four bytes that are the product of the block's scale and the quant.
#[verifier::spinoff_prover]
#[verifier::rlimit(50)]
pub proof fn q8_0_payloads_hold_their_quants(
    raw: Seq<u8>,
    block: int,
    scale: u16,
    quants: Seq<i8>,
    index: int,
)
    requires
        0 <= block,
        (block + 1) * 34 <= raw.len(),
        quants.len() == 32,
        raw.subrange(block * 34, block * 34 + 34) == q8_0_block(scale, quants),
        0 <= index < 32,
        is_half_number(scale),
    ensures
        ({
            let bits = word(delivered(TensorSource::Q8_0, raw), 4 * (block * 32 + index));
            &&& is_single_number(bits as u32)
            &&& single_number(bits as u32) == half_number(scale) * quants[index] * pow2(125)
        }),
{
    let part = raw.subrange(block * 34, block * 34 + 34);
    lemma_q8_0_word(raw, block, index);
    assert(part.subrange(0, 34) =~= part);
    q8_0_blocks_unpack(scale, quants, part, 0, index);
}

/// The four bytes of an element of a block.
proof fn lemma_q4_k_word(raw: Seq<u8>, block: int, index: int)
    requires
        0 <= block,
        (block + 1) * 144 <= raw.len(),
        0 <= index < 256,
    ensures
        word(delivered(TensorSource::Q4K, raw), 4 * (block * 256 + index)) == q4_k_value(
            raw.subrange(block * 144, block * 144 + 144),
            0,
            index,
        ),
{
    let place = block * 256 + index;
    assert(place / 256 == block && place % 256 == index);
    payloads_hold_every_element(ModelDType::Q4K, TensorSource::Q4K, raw, place);
}

/// What a payload holds for a `Q4_K` block of the file: for each of its quants, in their order,
/// four bytes that are its sub-block's scale times the quant, less its sub-block's minimum.
#[verifier::spinoff_prover]
#[verifier::rlimit(50)]
pub proof fn q4_k_payloads_hold_their_quants(
    raw: Seq<u8>,
    block: int,
    scale: u16,
    min_scale: u16,
    scales: Seq<u8>,
    minimums: Seq<u8>,
    quants: Seq<u8>,
    index: int,
)
    requires
        0 <= block,
        (block + 1) * 144 <= raw.len(),
        are_six_bit(scales),
        are_six_bit(minimums),
        quants.len() == 256,
        forall|at: int| 0 <= at < 256 ==> (#[trigger] quants[at]) < 16,
        raw.subrange(block * 144, block * 144 + 144) == q4_k_block(
            scale,
            min_scale,
            scales,
            minimums,
            quants,
        ),
        0 <= index < 256,
    ensures
        is_scaled(
            word(delivered(TensorSource::Q4K, raw), 4 * (block * 256 + index)) as u32,
            scale,
            scales[index / 32] * quants[index],
            min_scale,
            minimums[index / 32] as int,
        ),
{
    let part = raw.subrange(block * 144, block * 144 + 144);
    lemma_q4_k_word(raw, block, index);
    assert(part.subrange(0, 144) =~= part);
    q4_k_blocks_unpack(scale, min_scale, scales, minimums, quants, part, 0, index);
}

/// The four bytes of an element of a block.
proof fn lemma_q5_k_word(raw: Seq<u8>, block: int, index: int)
    requires
        0 <= block,
        (block + 1) * 176 <= raw.len(),
        0 <= index < 256,
    ensures
        word(delivered(TensorSource::Q5K, raw), 4 * (block * 256 + index)) == q5_k_value(
            raw.subrange(block * 176, block * 176 + 176),
            0,
            index,
        ),
{
    let place = block * 256 + index;
    assert(place / 256 == block && place % 256 == index);
    payloads_hold_every_element(ModelDType::Q5K, TensorSource::Q5K, raw, place);
}

/// What a payload holds for a `Q5_K` block of the file: for each of its quants, in their order,
/// four bytes that are its sub-block's scale times the quant, less its sub-block's minimum.
#[verifier::spinoff_prover]
#[verifier::rlimit(50)]
pub proof fn q5_k_payloads_hold_their_quants(
    raw: Seq<u8>,
    block: int,
    scale: u16,
    min_scale: u16,
    scales: Seq<u8>,
    minimums: Seq<u8>,
    quants: Seq<u8>,
    index: int,
)
    requires
        0 <= block,
        (block + 1) * 176 <= raw.len(),
        are_six_bit(scales),
        are_six_bit(minimums),
        quants.len() == 256,
        forall|at: int| 0 <= at < 256 ==> (#[trigger] quants[at]) < 32,
        raw.subrange(block * 176, block * 176 + 176) == q5_k_block(
            scale,
            min_scale,
            scales,
            minimums,
            quants,
        ),
        0 <= index < 256,
    ensures
        is_scaled(
            word(delivered(TensorSource::Q5K, raw), 4 * (block * 256 + index)) as u32,
            scale,
            scales[index / 32] * quants[index],
            min_scale,
            minimums[index / 32] as int,
        ),
{
    let part = raw.subrange(block * 176, block * 176 + 176);
    lemma_q5_k_word(raw, block, index);
    assert(part.subrange(0, 176) =~= part);
    q5_k_blocks_unpack(scale, min_scale, scales, minimums, quants, part, 0, index);
}

/// Whether a name in the file is that of a projection in a layer.
pub open spec fn is_layer_projection(layer: Seq<char>, raw: Seq<char>) -> bool {
    &&& denotes_u64(layer)
    &&& {
        ||| raw == in_layer(layer, ".attn_q.weight"@)
        ||| raw == in_layer(layer, ".attn_k.weight"@)
        ||| raw == in_layer(layer, ".attn_v.weight"@)
        ||| raw == in_layer(layer, ".attn_output.weight"@)
        ||| raw == in_layer(layer, ".ffn_gate.weight"@)
        ||| raw == in_layer(layer, ".ffn_up.weight"@)
        ||| raw == in_layer(layer, ".ffn_down.weight"@)
    }
}

/// Whether a name in the file is that of a projection: of the output head, or of one of the seven
/// matrices of a layer.
pub open spec fn is_projection_tensor(raw: Seq<char>) -> bool {
    ||| raw == "output.weight"@
    ||| exists|layer: Seq<char>| #[trigger] is_layer_projection(layer, raw)
}

/// The names of a layer's projections, spelled out.
proof fn lemma_spelled(layer: Seq<char>)
    ensures
        in_layer(layer, ".attn_q.weight"@) == weight_name(layer, "attn_q"@),
        in_layer(layer, ".attn_k.weight"@) == weight_name(layer, "attn_k"@),
        in_layer(layer, ".attn_v.weight"@) == weight_name(layer, "attn_v"@),
        in_layer(layer, ".attn_output.weight"@) == weight_name(layer, "attn_output"@),
        in_layer(layer, ".ffn_gate.weight"@) == weight_name(layer, "ffn_gate"@),
        in_layer(layer, ".ffn_up.weight"@) == weight_name(layer, "ffn_up"@),
        in_layer(layer, ".ffn_down.weight"@) == weight_name(layer, "ffn_down"@),
{
    reveal_strlit(".");
    reveal_strlit(".weight");
    assert(in_layer(layer, ".attn_q.weight"@) =~= weight_name(layer, "attn_q"@)) by {
        reveal_strlit(".attn_q.weight");
        reveal_strlit("attn_q");
        assert(".attn_q.weight"@ =~= "."@ + "attn_q"@ + ".weight"@);
    }
    assert(in_layer(layer, ".attn_k.weight"@) =~= weight_name(layer, "attn_k"@)) by {
        reveal_strlit(".attn_k.weight");
        reveal_strlit("attn_k");
        assert(".attn_k.weight"@ =~= "."@ + "attn_k"@ + ".weight"@);
    }
    assert(in_layer(layer, ".attn_v.weight"@) =~= weight_name(layer, "attn_v"@)) by {
        reveal_strlit(".attn_v.weight");
        reveal_strlit("attn_v");
        assert(".attn_v.weight"@ =~= "."@ + "attn_v"@ + ".weight"@);
    }
    assert(in_layer(layer, ".attn_output.weight"@) =~= weight_name(layer, "attn_output"@)) by {
        reveal_strlit(".attn_output.weight");
        reveal_strlit("attn_output");
        assert(".attn_output.weight"@ =~= "."@ + "attn_output"@ + ".weight"@);
    }
    assert(in_layer(layer, ".ffn_gate.weight"@) =~= weight_name(layer, "ffn_gate"@)) by {
        reveal_strlit(".ffn_gate.weight");
        reveal_strlit("ffn_gate");
        assert(".ffn_gate.weight"@ =~= "."@ + "ffn_gate"@ + ".weight"@);
    }
    assert(in_layer(layer, ".ffn_up.weight"@) =~= weight_name(layer, "ffn_up"@)) by {
        reveal_strlit(".ffn_up.weight");
        reveal_strlit("ffn_up");
        assert(".ffn_up.weight"@ =~= "."@ + "ffn_up"@ + ".weight"@);
    }
    assert(in_layer(layer, ".ffn_down.weight"@) =~= weight_name(layer, "ffn_down"@)) by {
        reveal_strlit(".ffn_down.weight");
        reveal_strlit("ffn_down");
        assert(".ffn_down.weight"@ =~= "."@ + "ffn_down"@ + ".weight"@);
    }
}

/// One of the seven is a projection.
proof fn lemma_layer_projection(layer: Seq<char>, field: Seq<char>)
    requires
        denotes_u64(layer),
        weight_field(field) is Some,
        field != "attn_norm"@,
        field != "ffn_norm"@,
    ensures
        canonical_name(weight_name(layer, field)) matches Ok(name) && names_projection(name),
{
    layer_fields_are_named(layer, field);
    layer_projections(layer, field);
}

/// A tensor that is recognized counts as a projection exactly where its name in the file is that
/// of one.
pub proof fn projections_are_known_by_name(raw: Seq<char>)
    ensures
        canonical_name(raw) matches Ok(name) ==> names_projection(name) == is_projection_tensor(raw),
{
    if let Ok(name) = canonical_name(raw) {
        if is_projection_tensor(raw) {
            lemma_projection_tensor(raw);
        }
        if names_projection(name) {
            lemma_named_projection(raw);
        }
    }
}

proof fn lemma_projection_tensor(raw: Seq<char>)
    requires
        is_projection_tensor(raw),
    ensures
        canonical_name(raw) matches Ok(name) && names_projection(name),
{
    if raw == "output.weight"@ {
        outer_tensors_have_their_names();
        reveal(is_named);
    } else {
        let layer = choose|layer: Seq<char>| #[trigger] is_layer_projection(layer, raw);
        lemma_spelled(layer);
        weight_fields_differ();
        if raw == in_layer(layer, ".attn_q.weight"@) {
            assert("attn_q"@ != "attn_norm"@ && "attn_q"@ != "ffn_norm"@) by {
                reveal_strlit("attn_q");
                reveal_strlit("attn_norm");
                reveal_strlit("ffn_norm");
                assert("attn_norm"@.len() == 9 && "ffn_norm"@.len() == 8 && "ffn_norm"@[4] == 'n');
            }
            lemma_layer_projection(layer, "attn_q"@);
        }
        if raw == in_layer(layer, ".attn_k.weight"@) {
            assert("attn_k"@ != "attn_norm"@ && "attn_k"@ != "ffn_norm"@) by {
                reveal_strlit("attn_k");
                reveal_strlit("attn_norm");
                reveal_strlit("ffn_norm");
                assert("attn_norm"@.len() == 9 && "ffn_norm"@.len() == 8 && "ffn_norm"@[4] == 'n');
            }
            lemma_layer_projection(layer, "attn_k"@);
        }
        if raw == in_layer(layer, ".attn_v.weight"@) {
            assert("attn_v"@ != "attn_norm"@ && "attn_v"@ != "ffn_norm"@) by {
                reveal_strlit("attn_v");
                reveal_strlit("attn_norm");
                reveal_strlit("ffn_norm");
                assert("attn_norm"@.len() == 9 && "ffn_norm"@.len() == 8 && "ffn_norm"@[4] == 'n');
            }
            lemma_layer_projection(layer, "attn_v"@);
        }
        if raw == in_layer(layer, ".attn_output.weight"@) {
            assert("attn_output"@ != "attn_norm"@ && "attn_output"@ != "ffn_norm"@) by {
                reveal_strlit("attn_output");
                reveal_strlit("attn_norm");
                reveal_strlit("ffn_norm");
                assert("attn_norm"@.len() == 9 && "ffn_norm"@.len() == 8 && "ffn_norm"@[4] == 'n');
            }
            lemma_layer_projection(layer, "attn_output"@);
        }
        if raw == in_layer(layer, ".ffn_gate.weight"@) {
            assert("ffn_gate"@ != "attn_norm"@ && "ffn_gate"@ != "ffn_norm"@) by {
                reveal_strlit("ffn_gate");
                reveal_strlit("attn_norm");
                reveal_strlit("ffn_norm");
                assert("attn_norm"@.len() == 9 && "ffn_norm"@.len() == 8 && "ffn_norm"@[4] == 'n');
            }
            lemma_layer_projection(layer, "ffn_gate"@);
        }
        if raw == in_layer(layer, ".ffn_up.weight"@) {
            assert("ffn_up"@ != "attn_norm"@ && "ffn_up"@ != "ffn_norm"@) by {
                reveal_strlit("ffn_up");
                reveal_strlit("attn_norm");
                reveal_strlit("ffn_norm");
                assert("attn_norm"@.len() == 9 && "ffn_norm"@.len() == 8 && "ffn_norm"@[4] == 'n');
            }
            lemma_layer_projection(layer, "ffn_up"@);
        }
        if raw == in_layer(layer, ".ffn_down.weight"@) {
            assert("ffn_down"@ != "attn_norm"@ && "ffn_down"@ != "ffn_norm"@) by {
                reveal_strlit("ffn_down");
                reveal_strlit("attn_norm");
                reveal_strlit("ffn_norm");
                assert("attn_norm"@.len() == 9 && "ffn_norm"@.len() == 8 && "ffn_norm"@[4] == 'n');
            }
            lemma_layer_projection(layer, "ffn_down"@);
        }
    }
}

proof fn lemma_named_projection(raw: Seq<char>)
    requires
        canonical_name(raw) matches Ok(name) && names_projection(name),
    ensures
        is_projection_tensor(raw),
{
    let name = canonical_name(raw)->Ok_0;
    lemma_origin(raw);
    if exists|top: Seq<char>| #[trigger]
        top_level_field(top) == Some(name) && raw == top + ".weight"@ {
        let top = choose|top: Seq<char>| #[trigger]
            top_level_field(top) == Some(name) && raw == top + ".weight"@;
        top_level_projections(top);
        assert("output.weight"@ =~= "output"@ + ".weight"@) by {
            reveal_strlit("output.weight");
            reveal_strlit("output");
            reveal_strlit(".weight");
        }
    } else if exists|layer: Seq<char>, field: Seq<char>| #[trigger]
        weight_name(layer, field) == raw && denotes_u64(layer) && weight_field(field) is Some
            && name == layer_name(layer, weight_field(field).unwrap()) {
        let (layer, field) = choose|layer: Seq<char>, field: Seq<char>| #[trigger]
            weight_name(layer, field) == raw && denotes_u64(layer) && weight_field(field) is Some
                && name == layer_name(layer, weight_field(field).unwrap());
        layer_projections(layer, field);
        lemma_spelled(layer);
        assert(is_layer_projection(layer, raw));
    } else {
        let (layer, field) = choose|layer: Seq<char>, field: Seq<char>| #[trigger]
            bias_name(layer, field) == raw && denotes_u64(layer) && bias_field(field) is Some
                && name == layer_name(layer, bias_field(field).unwrap());
        layer_projections(layer, field);
    }
}

/// How an ingested model describes the tensors of a file, one by one and in their order: under
/// its canonical name, at its place in the file, with its innermost dimension last, or first where
/// it is a projection. What is packed is described as the single-precision numbers that it
/// unpacks to, four bytes each. Where the file has no output head, one more tensor follows.
#[verifier::rlimit(50)]
pub proof fn tensors_are_described(
    raw: Seq<TensorView>,
    tensor_data_start: u64,
    metadata: MetadataView,
    at: int,
)
    requires
        0 <= at < raw.len(),
    ensures
        prepared(raw, tensor_data_start, metadata) matches Ok(model) ==> {
            let stored = raw[at];
            let tensor = model.tensors[at];
            let relaid = is_projection_tensor(stored.name) && stored.shape.len() == 2;
            &&& model.tensors.len() == raw.len() + if has_named(raw, "output.weight"@) {
                0int
            } else {
                1
            }
            &&& canonical_name(stored.name) == Ok::<_, ErrorView>(tensor.name)
            &&& tensor.shape == if relaid {
                stored.shape
            } else {
                stored.shape.reverse()
            }
            &&& stored.offset_bytes is Some
            &&& tensor.offset_bytes == stored.offset_bytes
            &&& tensor.layout == stored.layout
            &&& tensor.shard == stored.shard
            &&& tensor.expected_compute_dtype == stored.expected_compute_dtype
            &&& stored.size_bytes is Some
            &&& !is_packed(stored.storage_dtype) ==> {
                &&& tensor.storage_dtype == stored.storage_dtype
                &&& tensor.size_bytes == stored.size_bytes
                &&& tensor.quantization == stored.quantization
                &&& tensor.digest == if relaid {
                    None
                } else {
                    stored.digest
                }
            }
            &&& is_packed(stored.storage_dtype) ==> {
                &&& tensor.storage_dtype == ModelDType::F32
                &&& tensor.size_bytes matches Some(size) && size == 4 * element_product(
                    stored.shape,
                )
                &&& element_product(stored.shape) % packed_elements(stored.storage_dtype) as nat == 0
                &&& tensor.quantization is None
                &&& tensor.digest is None
            }
        },
{
    if let Ok(model) = prepared(raw, tensor_data_start, metadata) {
        let tensors = discovered_tensors(raw);
        discovery_describes_every_tensor(raw);
        ingested_models_have_an_output_head(raw, tensor_data_start, metadata);
        projections_are_known_by_name(raw[at].name);
        counting_is_exact(raw[at].shape.reverse());
        reversal_keeps_elements(raw[at].shape);
        lemma_head_is_output(raw);
        assert(model.tensors[at] == relaid(tensors[at]));
        assert(discovered_tensor(raw[at]) == Ok::<_, ErrorView>(
            (tensors[at], location_of(raw[at])),
        ));
        if is_projection(tensors[at]) {
            assert(seq![tensors[at].shape[1], tensors[at].shape[0]] =~= raw[at].shape);
        }
    }
}

/// Only the file's output head is called one.
pub(crate) proof fn lemma_head_is_output(raw: Seq<TensorView>)
    requires
        discovered(raw) is Ok,
    ensures
        has_named(discovered_tensors(raw), LM_HEAD@) == has_named(raw, "output.weight"@),
        forall|at: int|
            0 <= at < raw.len() ==> ((#[trigger] discovered_tensors(raw)[at]).name
                == TOKEN_EMBEDDING@) == (raw[at].name == "token_embd.weight"@),
{
    let tensors = discovered_tensors(raw);
    discovery_describes_every_tensor(raw);
    outer_tensors_have_their_names();
    reveal(is_named);
    if has_named(raw, "output.weight"@) {
        let at = choose|at: int|
            0 <= at < raw.len() && (#[trigger] raw[at]).name == "output.weight"@;
        assert(tensors[at].name == LM_HEAD@);
    }
    if has_named(tensors, LM_HEAD@) {
        let at = choose|at: int| 0 <= at < tensors.len() && (#[trigger] tensors[at]).name == LM_HEAD@;
        canonical_names_are_distinct(raw[at].name, "output.weight"@);
        assert(raw[at].name == "output.weight"@);
    }
    assert forall|at: int| 0 <= at < raw.len() implies ((#[trigger] tensors[at]).name
        == TOKEN_EMBEDDING@) == (raw[at].name == "token_embd.weight"@) by {
        if tensors[at].name == TOKEN_EMBEDDING@ {
            canonical_names_are_distinct(raw[at].name, "token_embd.weight"@);
        }
    }
}

/// A read of a tensor as the model describes it.
pub open spec fn read_of(tensor: TensorView, digest: Option<DigestView>) -> RangeView {
    RangeView {
        identity: tensor.name,
        offset: tensor.offset_bytes.unwrap(),
        length: tensor.size_bytes.unwrap(),
        digest,
    }
}

/// Whether element `place` of a payload is element `index` of a tensor that stands in a file from
/// `start` on: byte by byte the same, or, where it is packed, the bit pattern of the element of
/// the block that it falls in.
pub open spec fn holds_element(
    payload: Seq<u8>,
    place: int,
    dtype: ModelDType,
    file: Seq<u8>,
    start: int,
    index: int,
) -> bool {
    if is_packed(dtype) {
        let n = packed_elements(dtype);
        let block = start + index / n * packed_bytes(dtype);
        word(payload, 4 * place) == packed_element(
            dtype,
            file.subrange(block, block + packed_bytes(dtype)),
            index % n,
        )
    } else {
        forall|byte: int|
            0 <= byte < width(dtype) ==> payload[place * width(dtype) + byte]
                == #[trigger] file[start + index * width(dtype) + byte]
    }
}

/// Where a tensor's bytes start in a file.
pub open spec fn start_of(tensor: TensorView, tensor_data_start: u64) -> int {
    tensor_data_start + tensor.offset_bytes.unwrap()
}

/// Whether a file goes on to the end of a tensor, and fits in memory.
pub open spec fn is_within(tensor: TensorView, tensor_data_start: u64, file: Seq<u8>) -> bool {
    &&& tensor.offset_bytes is Some
    &&& tensor.size_bytes is Some
    &&& start_of(tensor, tensor_data_start) + tensor.size_bytes.unwrap() <= file.len()
    &&& file.len() <= usize::MAX
}

/// What a read of a tensor comes to, before its layout is changed.
#[verifier::rlimit(50)]
proof fn lemma_read(
    raw: Seq<TensorView>,
    tensor_data_start: u64,
    metadata: MetadataView,
    at: int,
    digest: Option<DigestView>,
    file: Seq<u8>,
    short: Seq<char>,
)
    requires
        names_differ(raw),
        prepared(raw, tensor_data_start, metadata) is Ok,
        0 <= at < raw.len(),
        is_within(raw[at], tensor_data_start, file),
    ensures
        prepared(raw, tensor_data_start, metadata) matches Ok(model) ==> {
            let start = start_of(raw[at], tensor_data_start);
            read_from(model.payload_source, read_of(model.tensors[at], digest), file, short)
                == Some(
                read_finished(
                    model.payload_source,
                    model.tensors[at].name,
                    Ok(
                        delivered(
                            source_of(raw[at].storage_dtype),
                            file.subrange(start, start + raw[at].size_bytes.unwrap()),
                        ),
                    ),
                ),
            )
        },
{
    let model = prepared(raw, tensor_data_start, metadata)->Ok_0;
    let tensors = discovered_tensors(raw);
    discovery_describes_every_tensor(raw);
    ingested_models_have_an_output_head(raw, tensor_data_start, metadata);
    ingested_tensors_can_be_read(raw, tensor_data_start, metadata, at, digest);
    declared_ranges_are_accepted(raw, tensor_data_start, at, digest);
    assert(model.tensors[at] == relaid(tensors[at]));
    assert(discovered_tensor(raw[at]) == Ok::<_, ErrorView>((tensors[at], location_of(raw[at]))));
}

/// What is delivered of a tensor's bytes holds its elements in their order.
#[verifier::rlimit(50)]
proof fn lemma_delivered(dtype: ModelDType, file: Seq<u8>, start: int, size: int)
    requires
        0 <= start,
        0 <= size,
        start + size <= file.len(),
    ensures
        ({
            let elements = delivered(source_of(dtype), file.subrange(start, start + size));
            &&& !is_packed(dtype) ==> elements == file.subrange(start, start + size)
            &&& is_packed(dtype) ==> {
                let count = size / packed_bytes(dtype) * packed_elements(dtype);
                &&& elements.len() == count * 4
                &&& forall|index: int|
                    0 <= index < count ==> #[trigger] holds_element(
                        elements,
                        index,
                        dtype,
                        file,
                        start,
                        index,
                    )
            }
        }),
{
    let bytes = file.subrange(start, start + size);
    let elements = delivered(source_of(dtype), bytes);
    payloads_hold_every_element(dtype, source_of(dtype), bytes, 0);
    if is_packed(dtype) {
        let count = size / packed_bytes(dtype) * packed_elements(dtype);
        assert forall|index: int| 0 <= index < count implies #[trigger] holds_element(
            elements,
            index,
            dtype,
            file,
            start,
            index,
        ) by {
            lemma_delivered_element(dtype, file, start, size, index);
        }
    }
}

/// An element of a packed tensor is that of a block in the file.
proof fn lemma_delivered_element(
    dtype: ModelDType,
    file: Seq<u8>,
    start: int,
    size: int,
    index: int,
)
    requires
        is_packed(dtype),
        0 <= start,
        0 <= size,
        start + size <= file.len(),
        0 <= index < size / packed_bytes(dtype) * packed_elements(dtype),
    ensures
        holds_element(
            delivered(source_of(dtype), file.subrange(start, start + size)),
            index,
            dtype,
            file,
            start,
            index,
        ),
{
    let bytes = file.subrange(start, start + size);
    let n = packed_elements(dtype);
    let b = packed_bytes(dtype);
    let block = index / n * b;
    payloads_hold_every_element(dtype, source_of(dtype), bytes, index);
    lemma_block_within(size, b, n, index);
    assert(bytes.subrange(block, block + b) =~= file.subrange(start + block, start + block + b));
}

/// The block that an element falls in is a whole one.
proof fn lemma_block_within(size: int, b: int, n: int, index: int)
    requires
        0 < b,
        0 < n,
        0 <= size,
        0 <= index < size / b * n,
    ensures
        0 <= index / n * b,
        index / n * b + b <= size,
{
    let blocks = size / b;
    let block = index / n;
    lemma_fundamental_div_mod(size, b);
    lemma_fundamental_div_mod(index, n);
    lemma_mod_bound(size, b);
    lemma_mod_bound(index, n);
    assert(0 <= block < blocks) by (nonlinear_arith)
        requires
            0 < n,
            0 <= index < blocks * n,
            index == n * block + index % n,
            0 <= index % n < n,
    ;
    assert(0 <= block * b && block * b + b <= b * blocks) by (nonlinear_arith)
        requires
            0 <= block < blocks,
            0 < b,
    ;
}

/// What is read of a tensor that is no projection: its bytes as they stand in the file, or, where
/// it is packed, every element of every whole block in its order.
#[verifier::rlimit(50)]
pub proof fn tensors_are_read_in_order(
    raw: Seq<TensorView>,
    tensor_data_start: u64,
    metadata: MetadataView,
    at: int,
    digest: Option<DigestView>,
    file: Seq<u8>,
    short: Seq<char>,
)
    requires
        names_differ(raw),
        prepared(raw, tensor_data_start, metadata) is Ok,
        0 <= at < raw.len(),
        !(is_projection_tensor(raw[at].name) && raw[at].shape.len() == 2),
        is_within(raw[at], tensor_data_start, file),
    ensures
        prepared(raw, tensor_data_start, metadata) matches Ok(model) ==> {
            let start = start_of(raw[at], tensor_data_start);
            let size = raw[at].size_bytes.unwrap();
            let dtype = raw[at].storage_dtype;
            &&& read_from(
                model.payload_source,
                read_of(model.tensors[at], digest),
                file,
                short,
            ) matches Some(Ok(payload))
            &&& !is_packed(dtype) ==> payload == file.subrange(start, start + size)
            &&& is_packed(dtype) ==> {
                let count = size as int / packed_bytes(dtype) * packed_elements(dtype);
                &&& payload.len() == count * 4
                &&& forall|index: int|
                    0 <= index < count ==> #[trigger] holds_element(
                        payload,
                        index,
                        dtype,
                        file,
                        start,
                        index,
                    )
            }
        },
{
    let start = start_of(raw[at], tensor_data_start);
    let size = raw[at].size_bytes.unwrap() as int;
    let dtype = raw[at].storage_dtype;
    let elements = delivered(source_of(dtype), file.subrange(start, start + size));
    discovery_describes_every_tensor(raw);
    ingested_models_have_an_output_head(raw, tensor_data_start, metadata);
    projections_are_known_by_name(raw[at].name);
    lemma_read(raw, tensor_data_start, metadata, at, digest, file, short);
    lemma_delivered(dtype, file, start, size);
    let model = prepared(raw, tensor_data_start, metadata)->Ok_0;
    assert(model.tensors[at] == relaid(discovered_tensors(raw)[at]));
    other_tensors_are_unchanged(raw, tensor_data_start, metadata, at, elements);
}

/// How many bytes an element takes once it is unpacked.
pub open spec fn unpacked_width(dtype: ModelDType) -> int {
    if is_packed(dtype) {
        4
    } else {
        width(dtype)
    }
}

/// How many bytes a number of elements take in a file.
pub open spec fn stored_size(dtype: ModelDType, elements: int) -> int {
    if is_packed(dtype) {
        elements / packed_elements(dtype) * packed_bytes(dtype)
    } else {
        elements * width(dtype)
    }
}

/// Whether a payload is a matrix of a file, transposed: element (`col`, `row`) of the payload is
/// element (`row`, `col`) of the file's `rows` by `cols` matrix, and it holds nothing else.
pub open spec fn is_transpose(
    payload: Seq<u8>,
    dtype: ModelDType,
    file: Seq<u8>,
    start: int,
    rows: int,
    cols: int,
) -> bool {
    &&& payload.len() == rows * cols * unpacked_width(dtype)
    &&& forall|row: int, col: int|
        0 <= row < rows && 0 <= col < cols ==> #[trigger] holds_element(
            payload,
            col * rows + row,
            dtype,
            file,
            start,
            row * cols + col,
        )
}

/// Transposing the elements of a matrix moves each to its place.
#[verifier::rlimit(50)]
proof fn lemma_transpose(
    dtype: ModelDType,
    file: Seq<u8>,
    start: int,
    size: int,
    rows: int,
    cols: int,
)
    requires
        0 <= start,
        start + size <= file.len(),
        0 <= rows,
        0 <= cols,
        size == stored_size(dtype, rows * cols),
        is_packed(dtype) ==> rows * cols % packed_elements(dtype) == 0,
    ensures
        ({
            let elements = delivered(source_of(dtype), file.subrange(start, start + size));
            &&& elements.len() == rows * cols * unpacked_width(dtype)
            &&& is_transpose(
                transposed(elements, rows, cols, unpacked_width(dtype)),
                dtype,
                file,
                start,
                rows,
                cols,
            )
        }),
{
    let w = unpacked_width(dtype);
    let count = rows * cols;
    assert(0 <= count) by (nonlinear_arith)
        requires
            0 <= rows,
            0 <= cols,
            count == rows * cols,
    ;
    lemma_size(dtype, count);
    lemma_delivered(dtype, file, start, size);
    let elements = delivered(source_of(dtype), file.subrange(start, start + size));
    let payload = transposed(elements, rows, cols, w);
    assert forall|row: int, col: int| 0 <= row < rows && 0 <= col < cols implies #[trigger]
        holds_element(payload, col * rows + row, dtype, file, start, row * cols + col) by {
        lemma_transposed_element(dtype, file, start, size, rows, cols, row, col);
    }
}

/// Whole elements take whole blocks.
proof fn lemma_size(dtype: ModelDType, count: int)
    requires
        0 <= count,
        is_packed(dtype) ==> count % packed_elements(dtype) == 0,
    ensures
        0 <= stored_size(dtype, count),
        is_packed(dtype) ==> stored_size(dtype, count) / packed_bytes(dtype) * packed_elements(
            dtype,
        ) == count,
{
    if is_packed(dtype) {
        let n = packed_elements(dtype);
        let b = packed_bytes(dtype);
        let blocks = count / n;
        assert(blocks * b / b == blocks) by {
            lemma_div_by_multiple(blocks, b);
        }
        lemma_fundamental_div_mod(count, n);
        assert(0 <= blocks);
        assert(n * blocks == blocks * n) by (nonlinear_arith);
        assert(0 <= blocks * b) by (nonlinear_arith)
            requires
                0 <= blocks,
                0 < b,
        ;
    } else {
        let w = width(dtype);
        assert(0 <= count * w) by (nonlinear_arith)
            requires
                0 <= count,
                0 < w,
        ;
    }
}

/// One element of a transposed matrix.
#[verifier::rlimit(50)]
proof fn lemma_transposed_element(
    dtype: ModelDType,
    file: Seq<u8>,
    start: int,
    size: int,
    rows: int,
    cols: int,
    row: int,
    col: int,
)
    requires
        0 <= start,
        0 <= size,
        start + size <= file.len(),
        0 <= row < rows,
        0 <= col < cols,
        size == stored_size(dtype, rows * cols),
        is_packed(dtype) ==> rows * cols % packed_elements(dtype) == 0,
    ensures
        holds_element(
            transposed(
                delivered(source_of(dtype), file.subrange(start, start + size)),
                rows,
                cols,
                unpacked_width(dtype),
            ),
            col * rows + row,
            dtype,
            file,
            start,
            row * cols + col,
        ),
{
    let w = unpacked_width(dtype);
    let count = rows * cols;
    let elements = delivered(source_of(dtype), file.subrange(start, start + size));
    let payload = transposed(elements, rows, cols, w);
    let place = col * rows + row;
    let index = row * cols + col;
    lemma_position_bound(row, col, rows, cols, 1, 0);
    lemma_size(dtype, count);
    lemma_delivered(dtype, file, start, size);
    assert(elements.len() == count * w);
    if is_packed(dtype) {
        transposed_element(elements, rows, cols, w, row, col, 0);
        transposed_element(elements, rows, cols, w, row, col, 1);
        transposed_element(elements, rows, cols, w, row, col, 2);
        transposed_element(elements, rows, cols, w, row, col, 3);
        assert(payload[4 * place] == elements[4 * index]);
        assert(payload[4 * place + 1] == elements[4 * index + 1]);
        assert(payload[4 * place + 2] == elements[4 * index + 2]);
        assert(payload[4 * place + 3] == elements[4 * index + 3]);
        assert(holds_element(elements, index, dtype, file, start, index));
    } else {
        assert forall|byte: int| 0 <= byte < width(dtype) implies payload[place * width(dtype)
            + byte] == #[trigger] file[start + index * width(dtype) + byte] by {
            transposed_element(elements, rows, cols, w, row, col, byte);
            assert(elements[index * w + byte] == file[start + (index * w + byte)]);
        }
    }
}

/// What is read of a projection: the file's matrix, transposed, whatever the type of its
/// elements. The file stores `rows` rows of `cols` elements, and says `[cols, rows]` of them, as
/// the model does of its columns and rows. It has to store as many bytes as they take.
#[verifier::rlimit(50)]
pub proof fn projections_are_read_transposed(
    raw: Seq<TensorView>,
    tensor_data_start: u64,
    metadata: MetadataView,
    at: int,
    rows: u64,
    cols: u64,
    digest: Option<DigestView>,
    file: Seq<u8>,
    short: Seq<char>,
)
    requires
        names_differ(raw),
        prepared(raw, tensor_data_start, metadata) is Ok,
        0 <= at < raw.len(),
        is_projection_tensor(raw[at].name),
        raw[at].shape == seq![cols, rows],
        is_within(raw[at], tensor_data_start, file),
        raw[at].size_bytes.unwrap() == stored_size(raw[at].storage_dtype, rows * cols),
    ensures
        prepared(raw, tensor_data_start, metadata) matches Ok(model) ==> {
            &&& model.tensors[at].shape == seq![cols, rows]
            &&& read_from(
                model.payload_source,
                read_of(model.tensors[at], digest),
                file,
                short,
            ) matches Some(Ok(payload))
            &&& is_transpose(
                payload,
                raw[at].storage_dtype,
                file,
                start_of(raw[at], tensor_data_start),
                rows as int,
                cols as int,
            )
        },
{
    let start = start_of(raw[at], tensor_data_start);
    let size = raw[at].size_bytes.unwrap() as int;
    let dtype = raw[at].storage_dtype;
    let elements = delivered(source_of(dtype), file.subrange(start, start + size));
    let tensors = discovered_tensors(raw);
    discovery_describes_every_tensor(raw);
    ingested_models_have_an_output_head(raw, tensor_data_start, metadata);
    tensors_are_described(raw, tensor_data_start, metadata, at);
    projections_are_known_by_name(raw[at].name);
    lemma_matrix(raw[at], rows, cols);
    lemma_read(raw, tensor_data_start, metadata, at, digest, file, short);
    lemma_transpose(dtype, file, start, size, rows as int, cols as int);
    let model = prepared(raw, tensor_data_start, metadata)->Ok_0;
    assert(model.tensors[at] == relaid(tensors[at]));
    assert(tensors[at].shape[0] == rows && tensors[at].shape[1] == cols);
    projections_are_transposed(raw, tensor_data_start, metadata, at, elements);
}

/// What is known of a matrix whose bytes are all there.
#[verifier::rlimit(50)]
proof fn lemma_matrix(raw: TensorView, rows: u64, cols: u64)
    requires
        discovered_tensor(raw) is Ok,
        raw.shape == seq![cols, rows],
        raw.size_bytes matches Some(size) && size == stored_size(raw.storage_dtype, rows * cols),
    ensures
        rows * cols <= u64::MAX,
        is_packed(raw.storage_dtype) ==> rows * cols % packed_elements(raw.storage_dtype) == 0,
        element_bytes(discovered_tensor(raw)->Ok_0.0.storage_dtype) == unpacked_width(
            raw.storage_dtype,
        ),
{
    let dtype = raw.storage_dtype;
    let shape = raw.shape.reverse();
    let count = rows * cols;
    if is_packed(dtype) {
        counting_is_exact(shape);
        assert(shape =~= seq![rows, cols]);
        assert(element_product(shape) == count) by {
            assert(shape.drop_last() =~= seq![rows]);
            assert(seq![rows].drop_last() =~= Seq::<u64>::empty());
            assert(element_product(Seq::<u64>::empty()) == 1);
            assert(element_product(seq![rows]) == 1 * rows as nat);
            assert(1 * rows as nat == rows);
        }
    } else {
        let w = width(dtype);
        assert(count <= count * w) by (nonlinear_arith)
            requires
                count == rows * cols,
                1 <= w,
                0 <= rows,
                0 <= cols,
        ;
    }
}

/// A projection whose bytes in the file are not as many as its rows and columns take is refused
/// when it is read, with the numbers of both.
#[verifier::rlimit(50)]
pub proof fn projections_of_other_sizes_are_refused(
    raw: Seq<TensorView>,
    tensor_data_start: u64,
    metadata: MetadataView,
    at: int,
    rows: u64,
    cols: u64,
    digest: Option<DigestView>,
    file: Seq<u8>,
    short: Seq<char>,
)
    requires
        names_differ(raw),
        prepared(raw, tensor_data_start, metadata) is Ok,
        0 <= at < raw.len(),
        is_projection_tensor(raw[at].name),
        raw[at].shape == seq![cols, rows],
        is_within(raw[at], tensor_data_start, file),
        ({
            let dtype = raw[at].storage_dtype;
            let size = raw[at].size_bytes.unwrap() as int;
            if is_packed(dtype) {
                size / packed_bytes(dtype) * packed_elements(dtype) != rows * cols
            } else {
                size != rows * cols * width(dtype)
            }
        }),
    ensures
        prepared(raw, tensor_data_start, metadata) matches Ok(model) ==> read_from(
            model.payload_source,
            read_of(model.tensors[at], digest),
            file,
            short,
        ) matches Some(Err((kind, text))) && kind == IngestionErrorKind::MalformedMetadata && text
            == "'"@ + model.tensors[at].name + if rows * cols > u64::MAX {
            "' element count overflows"@
        } else {
            "' byte length "@ + decimal_text(
                held_size(raw[at].storage_dtype, raw[at].size_bytes.unwrap() as int) as nat,
            ) + " does not match "@ + decimal_text(rows as nat) + "x"@ + decimal_text(cols as nat)
                + " elements at "@ + decimal_text(unpacked_width(raw[at].storage_dtype) as nat)
                + " bytes/element"@
        },
{
    let start = start_of(raw[at], tensor_data_start);
    let size = raw[at].size_bytes.unwrap() as int;
    let dtype = raw[at].storage_dtype;
    let elements = delivered(source_of(dtype), file.subrange(start, start + size));
    let model = prepared(raw, tensor_data_start, metadata)->Ok_0;
    let name = model.tensors[at].name;
    let shape = TransposedTensorShape {
        out_features: rows,
        in_features: cols,
        element_bytes: unpacked_width(dtype) as u64,
    };
    lemma_read_projection(raw, tensor_data_start, metadata, at, rows, cols, digest, file, short);
    lemma_delivered(dtype, file, start, size);
    lemma_refused_matrix(shape, name, elements, dtype, size);
}

/// What is read of a projection comes to a matrix of its shape.
#[verifier::rlimit(50)]
proof fn lemma_read_projection(
    raw: Seq<TensorView>,
    tensor_data_start: u64,
    metadata: MetadataView,
    at: int,
    rows: u64,
    cols: u64,
    digest: Option<DigestView>,
    file: Seq<u8>,
    short: Seq<char>,
)
    requires
        names_differ(raw),
        prepared(raw, tensor_data_start, metadata) is Ok,
        0 <= at < raw.len(),
        is_projection_tensor(raw[at].name),
        raw[at].shape == seq![cols, rows],
        is_within(raw[at], tensor_data_start, file),
    ensures
        prepared(raw, tensor_data_start, metadata) matches Ok(model) ==> {
            let start = start_of(raw[at], tensor_data_start);
            read_from(model.payload_source, read_of(model.tensors[at], digest), file, short)
                == Some(
                relaid_matrix(
                    TransposedTensorShape {
                        out_features: rows,
                        in_features: cols,
                        element_bytes: unpacked_width(raw[at].storage_dtype) as u64,
                    },
                    model.tensors[at].name,
                    delivered(
                        source_of(raw[at].storage_dtype),
                        file.subrange(start, start + raw[at].size_bytes.unwrap()),
                    ),
                ),
            )
        },
{
    let tensors = discovered_tensors(raw);
    let model = prepared(raw, tensor_data_start, metadata)->Ok_0;
    discovery_describes_every_tensor(raw);
    ingested_models_have_an_output_head(raw, tensor_data_start, metadata);
    projections_are_known_by_name(raw[at].name);
    lemma_read(raw, tensor_data_start, metadata, at, digest, file, short);
    lemma_discovered_names_differ(raw);
    lemma_projection_shapes(tensors);
    lemma_embedding_is_no_projection();
    assert(model.tensors[at] == relaid(tensors[at]));
    assert(tensors[at].shape[0] == rows && tensors[at].shape[1] == cols);
    assert(is_projection(tensors[at]));
    assert(has_named(tensors, tensors[at].name));
    assert(element_bytes(tensors[at].storage_dtype) == unpacked_width(raw[at].storage_dtype));
}

/// How a matrix is refused that has other bytes than its shape takes.
proof fn lemma_refused_matrix(
    shape: TransposedTensorShape,
    name: Seq<char>,
    elements: Seq<u8>,
    dtype: ModelDType,
    size: int,
)
    requires
        shape.element_bytes == unpacked_width(dtype),
        elements.len() == held_size(dtype, size),
        elements.len() != shape.out_features * shape.in_features * unpacked_width(dtype),
    ensures
        relaid_matrix(shape, name, elements) == Err::<Seq<u8>, _>(
            (
                IngestionErrorKind::MalformedMetadata,
                "'"@ + name + if shape.out_features * shape.in_features > u64::MAX {
                    "' element count overflows"@
                } else {
                    "' byte length "@ + decimal_text(held_size(dtype, size) as nat)
                        + " does not match "@ + decimal_text(shape.out_features as nat) + "x"@
                        + decimal_text(shape.in_features as nat) + " elements at "@ + decimal_text(
                        unpacked_width(dtype) as nat,
                    ) + " bytes/element"@
                },
            ),
        ),
{
    let length = decimal_text(elements.len());
    let r = decimal_text(shape.out_features as nat);
    let c = decimal_text(shape.in_features as nat);
    let each = decimal_text(shape.element_bytes as nat);
    assert("'"@ + name + "' byte length "@ + length + " does not match "@ + r + "x"@ + c
        + " elements at "@ + each + " bytes/element"@ =~= "'"@ + name + ("' byte length "@ + length
        + " does not match "@ + r + "x"@ + c + " elements at "@ + each + " bytes/element"@));
}

/// How many bytes come of those that a tensor takes in a file.
pub open spec fn held_size(dtype: ModelDType, size: int) -> int {
    if is_packed(dtype) {
        size / packed_bytes(dtype) * packed_elements(dtype) * 4
    } else {
        size
    }
}

/// What is read of the output head of a model whose file has none: the file's embedding matrix,
/// transposed. It is described as the embedding is, with its dimensions the other way round.
#[verifier::rlimit(50)]
pub proof fn tied_heads_are_read_transposed(
    raw: Seq<TensorView>,
    tensor_data_start: u64,
    metadata: MetadataView,
    at: int,
    rows: u64,
    cols: u64,
    digest: Option<DigestView>,
    file: Seq<u8>,
    short: Seq<char>,
)
    requires
        names_differ(raw),
        prepared(raw, tensor_data_start, metadata) is Ok,
        !has_named(raw, "output.weight"@),
        0 <= at < raw.len(),
        raw[at].name == "token_embd.weight"@,
        raw[at].shape == seq![cols, rows],
        is_within(raw[at], tensor_data_start, file),
        raw[at].size_bytes.unwrap() == stored_size(raw[at].storage_dtype, rows * cols),
    ensures
        prepared(raw, tensor_data_start, metadata) matches Ok(model) ==> {
            let embedding = model.tensors[at];
            let head = model.tensors.last();
            &&& embedding.name == "token_embedding"@
            &&& embedding.shape == seq![rows, cols]
            &&& head == TensorView {
                name: "lm_head"@,
                shape: seq![cols, rows],
                digest: None,
                ..embedding
            }
            &&& model.architecture_config.tie_word_embeddings
            &&& model.architecture_config.vocab_size == rows
            &&& read_from(
                model.payload_source,
                read_of(head, digest),
                file,
                short,
            ) matches Some(Ok(payload))
            &&& is_transpose(
                payload,
                raw[at].storage_dtype,
                file,
                start_of(raw[at], tensor_data_start),
                rows as int,
                cols as int,
            )
        },
{
    let start = start_of(raw[at], tensor_data_start);
    let size = raw[at].size_bytes.unwrap() as int;
    let dtype = raw[at].storage_dtype;
    let tensors = discovered_tensors(raw);
    let model = prepared(raw, tensor_data_start, metadata)->Ok_0;
    discovery_describes_every_tensor(raw);
    ingested_models_have_an_output_head(raw, tensor_data_start, metadata);
    lemma_head_is_output(raw);
    lemma_embedding_is_no_projection();
    lemma_discovered_names_differ(raw);
    lemma_first_named(tensors, TOKEN_EMBEDDING@);
    let embedding = first_named(tensors, TOKEN_EMBEDDING@).unwrap();
    let place = choose|i: int| 0 <= i < tensors.len() && tensors[i] == embedding;
    assert(place == at) by {
        assert(tensors[at].name == TOKEN_EMBEDDING@);
        assert(tensors[place].name == tensors[at].name);
    }
    assert(model.tensors[at] == relaid(tensors[at]));
    assert(tensors[at].shape =~= seq![rows, cols]);
    assert(tied_head(embedding).shape =~= seq![cols, rows]);
    assert(discovered_tensor(raw[at]) == Ok::<_, ErrorView>((tensors[at], location_of(raw[at]))));
    lemma_matrix(raw[at], rows, cols);
    lemma_stored_whole(raw[at], rows, cols, tensor_data_start, file);
    reads_give_back_tied_heads(raw, tensor_data_start, metadata, at, digest, file, short);
    lemma_transpose(dtype, file, start, size, rows as int, cols as int);
}

/// A matrix whose bytes are all in the file is stored whole.
proof fn lemma_stored_whole(
    raw: TensorView,
    rows: u64,
    cols: u64,
    tensor_data_start: u64,
    file: Seq<u8>,
)
    requires
        discovered_tensor(raw) is Ok,
        raw.shape == seq![cols, rows],
        is_within(raw, tensor_data_start, file),
        raw.size_bytes.unwrap() == stored_size(raw.storage_dtype, rows * cols),
    ensures
        is_stored_whole(raw, tensor_data_start, file),
{
    let shape = raw.shape.reverse();
    lemma_matrix(raw, rows, cols);
    assert(shape =~= seq![rows, cols]);
    assert(shape.drop_last() =~= seq![rows]);
    assert(seq![rows].drop_last() =~= Seq::<u64>::empty());
    assert(counted(Seq::<u64>::empty()) == Some(1u64));
    assert(1u64 * rows == rows);
    assert(counted(seq![rows]) == Some(rows));
    assert(counted(shape) == Some((rows * cols) as u64));
}

/// Where a read goes: to the tensor's own place after the start of the tensors, for as many bytes
/// as it takes in the file. A place that no file can have, or a length that no memory can, is out
/// of bounds.
pub proof fn reads_go_to_the_tensor(request: RequestView, start: u64)
    ensures
        ({
            let place = request.tensor_data_start + request.location.file_offset;
            let length = request.location.file_length;
            let refused = ReadView::Finished(
                Err((IngestionErrorKind::PayloadOutOfBounds, request.identity)),
            );
            &&& place < 0x1_0000_0000_0000_0000 ==> following(
                ReadView::Open(request),
                EventView::Done,
            ) == ReadView::Seek { request, start: place as u64 }
            &&& place >= 0x1_0000_0000_0000_0000 ==> following(
                ReadView::Open(request),
                EventView::Done,
            ) == refused
            &&& length <= usize::MAX ==> following(ReadView::Seek { request, start }, EventView::Done)
                == ReadView::Load { request, length: length as usize }
            &&& length > usize::MAX ==> following(ReadView::Seek { request, start }, EventView::Done)
                == refused
        }),
{
}

/// How a read fails: a step that could not be done ends it with the name of what was asked for,
/// a colon and the reason. Bytes that do not have their digest are a mismatch; whatever else
/// could not be done leaves the payload unavailable.
pub proof fn failed_steps_end_the_read(
    request: RequestView,
    start: u64,
    length: usize,
    raw: Seq<u8>,
    error: Seq<char>,
)
    ensures
        ({
            let text = request.identity + ": "@ + error;
            let unavailable = ReadView::Finished(Err((IngestionErrorKind::PayloadUnavailable, text)));
            let mismatch = ReadView::Finished(Err((IngestionErrorKind::IntegrityMismatch, text)));
            let failure = EventView::Failed(error);
            &&& following(ReadView::Open(request), failure) == unavailable
            &&& following(ReadView::Seek { request, start }, failure) == unavailable
            &&& following(ReadView::Load { request, length }, failure) == unavailable
            &&& following(ReadView::Verify { request, raw }, failure) == mismatch
        }),
{
}

/// What does not answer a step changes nothing, and nothing follows the end.
pub proof fn other_events_change_nothing(
    request: RequestView,
    start: u64,
    length: usize,
    raw: Seq<u8>,
    result: Result<Seq<u8>, ErrorView>,
    event: EventView,
)
    ensures
        ({
            let open = ReadView::Open(request);
            let seek = ReadView::Seek { request, start };
            let load = ReadView::Load { request, length };
            let verify = ReadView::Verify { request, raw };
            &&& event is Loaded ==> following(open, event) == open
            &&& event is Loaded ==> following(seek, event) == seek
            &&& event is Loaded ==> following(verify, event) == verify
            &&& event is Done ==> following(load, event) == load
            &&& following(ReadView::Finished(result), event) == ReadView::Finished(result)
        }),
{
}

/// Bytes are only handed out once they have been checked against the digest that was asked for,
/// where one was: loading them leads to the check, of those very bytes, and only then to the end.
pub proof fn digests_are_checked_first(request: RequestView, length: usize, raw: Seq<u8>)
    ensures
        ({
            let loaded = following(ReadView::Load { request, length }, EventView::Loaded(raw));
            &&& request.digest is Some ==> loaded == ReadView::Verify { request, raw }
            &&& request.digest is None ==> loaded is Finished && loaded->Finished_0 is Ok
            &&& request.digest is Some ==> following(loaded, EventView::Done)
                == following(
                ReadView::Load { request: RequestView { digest: None, ..request }, length },
                EventView::Loaded(raw),
            )
        }),
{
}

} // verus!
