//! What a manifest says of a file, and the names and listings in it.

use vstd::prelude::*;
use vstd::utf8::encode_utf8;

use crate::config::SUPPORTED_ARCHITECTURE;
use crate::declared::declares_text;
use crate::derived_lm_head::{LM_HEAD, TOKEN_EMBEDDING};
use crate::error::{plain_outcome, IngestionErrorKind, ProductionIngestionError};
use crate::ingestor::{completed, identity_char, prepared, sanitized_name, PreparedView};
use crate::ingestor::INGESTOR_ID;
use crate::listing::{at_most, joined, lexicographic, listed_numbers, listed_option};
use crate::listing::{lexicographic_is_total, tensor_line, tensor_lines, weights_listing};
use crate::metadata::MetadataView;
use crate::model::{tensor_views, ArtifactFormat, DigestView, ModelArtifactKind, ModelDType};
use crate::model::{ModelTensorMetadata, TensorView};
use crate::text::decimal_text;
use crate::weights::{load_defect, ArtifactLoad, GGUF_FILE_NAME};

verus! {

/// Whether a character is a letter or a digit of ASCII, a dot, a dash or an underscore.
pub open spec fn is_plain(ch: char) -> bool {
    ||| '0' <= ch && ch <= '9'
    ||| 'A' <= ch && ch <= 'Z'
    ||| 'a' <= ch && ch <= 'z'
    ||| ch == '.'
    ||| ch == '-'
    ||| ch == '_'
}

/// What a model is called: `gguf-` and its display name, with a dash for every character that is
/// not plain. A name without characters makes it a bundle.
pub proof fn names_are_sanitized(raw: Seq<char>)
    ensures
        raw.len() == 0 ==> sanitized_name(raw) == "gguf-bundle"@,
        raw.len() > 0 ==> {
            &&& sanitized_name(raw).len() == 5 + raw.len()
            &&& sanitized_name(raw).take(5) == "gguf-"@
            &&& forall|at: int|
                0 <= at < raw.len() ==> sanitized_name(raw)[5 + at] == if is_plain(
                    #[trigger] raw[at],
                ) {
                    raw[at]
                } else {
                    '-'
                }
        },
{
    reveal_strlit("gguf-");
    if raw.len() > 0 {
        assert(sanitized_name(raw).take(5) =~= "gguf-"@);
        let plain = raw.map_values(|ch: char| identity_char(ch));
        assert forall|at: int| 0 <= at < raw.len() implies sanitized_name(raw)[5 + at] == if is_plain(
            #[trigger] raw[at],
        ) {
            raw[at]
        } else {
            '-'
        } by {
            assert(sanitized_name(raw)[5 + at] == plain[at]);
        }
    }
}

/// What an ingested model takes from the texts of its metadata: its name from that under
/// `general.name`, or from the architecture where none stands there, and its chat template.
pub proof fn models_have_the_declared_texts(
    raw: Seq<TensorView>,
    tensor_data_start: u64,
    metadata: MetadataView,
)
    ensures
        prepared(raw, tensor_data_start, metadata) matches Ok(model) ==> {
            let name = "general.name"@;
            let template = "tokenizer.chat_template"@;
            &&& metadata.contains_key(name) && metadata[name] is String ==> model.name
                == sanitized_name(metadata[name]->String_0@)
            &&& !(metadata.contains_key(name) && metadata[name] is String) ==> model.name
                == sanitized_name("qwen2"@)
            &&& model.chat_template is Some <==> metadata.contains_key(template)
                && metadata[template] is String
            &&& model.chat_template matches Some(text) ==> declares_text(metadata, template, text)
            &&& model.weights_listing == weights_listing(model.tensors)
        },
{
}

/// What a manifest says: of the model, under the file's digest, everything that was decided for
/// it; of its parts, the file's metadata under the same digest and with the file's length, the
/// weights under theirs, and, where there is one, the chat template, with the bytes it takes.
#[verifier::rlimit(50)]
pub proof fn manifests_say_what_was_decided<S>(
    model: PreparedView,
    file: DigestView,
    length: u64,
    weights: DigestView,
    template: Option<DigestView>,
    source: S,
)
    requires
        template is Some <==> model.chat_template is Some,
    ensures
        ({
            let manifest = completed(model, file, length, weights, template, source);
            let whole = manifest.parts["gguf_metadata"@];
            let tensors = manifest.parts["weights"@];
            let chat = manifest.parts["chat_template"@];
            &&& manifest.schema_version == 1
            &&& manifest.id.kind == ModelArtifactKind::ModelBundle
            &&& manifest.id.name == model.name
            &&& manifest.id.revision == "local"@
            &&& manifest.id.digest == file
            &&& manifest.family == "qwen"@
            &&& manifest.identifier == "qwen2"@
            &&& manifest.tensors == model.tensors
            &&& manifest.architecture_config == Some(model.architecture_config)
            &&& manifest.artifact_format == ArtifactFormat::Gguf
            &&& manifest.supported_compute_dtypes == seq![ModelDType::F32]
            &&& manifest.storage_dtype is Some <==> model.tensors.len() > 0
            &&& model.tensors.len() > 0 ==> manifest.storage_dtype == Some(
                model.tensors[0].storage_dtype,
            )
            &&& manifest.source == Some(source)
            &&& manifest.provenance is None
            &&& manifest.signatures.len() == 0
            &&& manifest.chat_template is Some <==> model.chat_template is Some
            &&& manifest.chat_template is Some ==> manifest.chat_template->Some_0
                == "chat_template"@
            &&& forall|name: Seq<char>| #[trigger]
                manifest.parts.contains_key(name) <==> {
                    ||| name == "gguf_metadata"@
                    ||| name == "weights"@
                    ||| name == "chat_template"@ && model.chat_template is Some
                }
            &&& whole.name == "gguf_metadata"@
            &&& whole.kind == ModelArtifactKind::ModelConfig
            &&& whole.digest == file
            &&& whole.size_bytes == Some(length)
            &&& whole.required
            &&& tensors.name == "weights"@
            &&& tensors.kind == ModelArtifactKind::ModelWeights
            &&& tensors.digest == weights
            &&& tensors.size_bytes is None
            &&& tensors.required
            &&& model.chat_template is Some ==> {
                let size = encode_utf8(model.chat_template->Some_0).len();
                &&& chat.name == "chat_template"@
                &&& chat.kind == ModelArtifactKind::ChatTemplate
                &&& chat.digest == template->Some_0
                &&& size <= u64::MAX ==> chat.size_bytes == Some(size as u64)
                &&& !chat.required
            }
        }),
{
    reveal_strlit("gguf_metadata");
    reveal_strlit("weights");
    reveal_strlit("chat_template");
    assert("gguf_metadata"@.len() == 13 && "weights"@.len() == 7 && "chat_template"@.len() == 13);
    assert("gguf_metadata"@[0] == 'g' && "chat_template"@[0] == 'c');
}

/// How a bundle fails whose file could not be loaded: the file is missing, under its name or under
/// its path with the reason why it could not be read, or its bytes are not those of a GGUF file.
pub proof fn unloaded_files_are_refused(load: ArtifactLoad)
    ensures
        load is Parsed <==> load_defect(load) is None,
        load is Unresolved ==> load_defect(load) == Some(
            (IngestionErrorKind::RequiredPartMissing, "model.gguf"@),
        ),
        load is Unreadable ==> load_defect(load) == Some(
            (
                IngestionErrorKind::RequiredPartMissing,
                load->path@ + " ("@ + load->Unreadable_error@ + ")"@,
            ),
        ),
        load is Unparsable ==> load_defect(load) == Some(
            (
                IngestionErrorKind::MalformedMetadata,
                "model.gguf failed to parse as GGUF: "@ + load->Unparsable_error@,
            ),
        ),
{
    assert("model.gguf failed to parse as GGUF: "@ =~= "model.gguf"@
        + " failed to parse as GGUF: "@) by {
        reveal_strlit("model.gguf failed to parse as GGUF: ");
        reveal_strlit("model.gguf");
        reveal_strlit(" failed to parse as GGUF: ");
    }
    if let ArtifactLoad::Unparsable { error } = load {
        assert("model.gguf"@ + " failed to parse as GGUF: "@ + error@
            =~= "model.gguf failed to parse as GGUF: "@ + error@);
    }
}

/// A shape is listed from its first number on: in decimal, with a comma and a space between any
/// two.
pub proof fn shapes_are_listed_in_order(first: u64, rest: Seq<u64>)
    ensures
        listed_numbers(Seq::empty()) == Seq::<char>::empty(),
        rest.len() == 0 ==> listed_numbers(seq![first] + rest) == decimal_text(first as nat),
        rest.len() > 0 ==> listed_numbers(seq![first] + rest) == decimal_text(first as nat) + ", "@
            + listed_numbers(rest),
    decreases rest.len(),
{
    let all = seq![first] + rest;
    if rest.len() == 0 {
        assert(all =~= seq![first]);
    } else if rest.len() == 1 {
        assert(all.drop_last() =~= seq![first]);
        assert(listed_numbers(seq![first]) == decimal_text(first as nat));
        assert(all.last() == rest[0]);
    } else {
        shapes_are_listed_in_order(first, rest.drop_last());
        assert(all.drop_last() =~= seq![first] + rest.drop_last());
        assert(all.last() == rest.last());
        assert(listed_numbers(all) =~= decimal_text(first as nat) + ", "@ + listed_numbers(rest));
    }
}

/// The line of a tensor says its name, its shape and where its bytes stand.
pub proof fn lines_say_name_shape_and_place(tensor: TensorView)
    ensures
        tensor.offset_bytes is Some && tensor.size_bytes is Some ==> tensor_line(tensor)
            == tensor.name + ":["@ + listed_numbers(tensor.shape) + "]:Some("@ + decimal_text(
            tensor.offset_bytes->Some_0 as nat,
        ) + "):Some("@ + decimal_text(tensor.size_bytes->Some_0 as nat) + ")"@,
        listed_option(None) == "None"@,
{
    if tensor.offset_bytes is Some && tensor.size_bytes is Some {
        assert("]:Some("@ =~= "]:"@ + "Some("@) by {
            reveal_strlit("]:Some(");
            reveal_strlit("]:");
            reveal_strlit("Some(");
        }
        assert("):Some("@ =~= ")"@ + ":"@ + "Some("@) by {
            reveal_strlit("):Some(");
            reveal_strlit(")");
            reveal_strlit(":");
            reveal_strlit("Some(");
        }
        let offset = decimal_text(tensor.offset_bytes->Some_0 as nat);
        let size = decimal_text(tensor.size_bytes->Some_0 as nat);
        assert(tensor_line(tensor) =~= tensor.name + ":["@ + listed_numbers(tensor.shape)
            + "]:Some("@ + offset + "):Some("@ + size + ")"@);
    }
}

/// Lines are joined from the first one on, with a line feed between any two.
pub proof fn lines_are_joined_in_order(first: Seq<char>, rest: Seq<Seq<char>>)
    ensures
        joined(Seq::empty()) == Seq::<char>::empty(),
        rest.len() == 0 ==> joined(seq![first] + rest) == first,
        rest.len() > 0 ==> joined(seq![first] + rest) == first + "\n"@ + joined(rest),
    decreases rest.len(),
{
    let all = seq![first] + rest;
    if rest.len() == 0 {
        assert(all =~= seq![first]);
    } else if rest.len() == 1 {
        assert(all.drop_last() =~= seq![first]);
        assert(joined(seq![first]) == first);
        assert(all.last() == rest[0]);
    } else {
        lines_are_joined_in_order(first, rest.drop_last());
        assert(all.drop_last() =~= seq![first] + rest.drop_last());
        assert(all.last() == rest.last());
        assert(joined(all) =~= first + "\n"@ + joined(rest));
    }
}

/// Whether two texts first differ at a place, and the left one comes first there: it ends, or its
/// character has the lower number.
pub open spec fn parts_at(left: Seq<char>, right: Seq<char>, at: int) -> bool {
    &&& 0 <= at <= left.len()
    &&& at < right.len()
    &&& left.take(at) == right.take(at)
    &&& at == left.len() || left[at] < right[at]
}

/// Whether a text comes before another.
pub open spec fn comes_before(left: Seq<char>, right: Seq<char>) -> bool {
    exists|at: int| #[trigger] parts_at(left, right, at)
}

/// Texts are ordered by the numbers of their characters, at the first place that tells them
/// apart.
pub proof fn texts_are_ordered_by_their_characters(left: Seq<char>, right: Seq<char>)
    ensures
        at_most(left, right) <==> left == right || comes_before(left, right),
    decreases left.len(),
{
    if left.len() == 0 {
        assert(left.take(0) =~= right.take(0));
        if right.len() == 0 {
            assert(left =~= right);
        } else {
            assert(parts_at(left, right, 0));
        }
    } else if right.len() == 0 {
    } else if left[0] != right[0] {
        assert(left.take(0) =~= right.take(0));
        if left[0] < right[0] {
            assert(parts_at(left, right, 0));
        }
        if comes_before(left, right) {
            let at = choose|at: int| #[trigger] parts_at(left, right, at);
            if at > 0 {
                assert(left.take(at)[0] == right.take(at)[0]);
            }
        }
    } else {
        let a = left.skip(1);
        let b = right.skip(1);
        texts_are_ordered_by_their_characters(a, b);
        if a == b {
            assert(left =~= seq![left[0]] + a && right =~= seq![right[0]] + b);
        }
        if comes_before(a, b) {
            let at = choose|at: int| #[trigger] parts_at(a, b, at);
            assert(left.take(at + 1) =~= seq![left[0]] + a.take(at));
            assert(right.take(at + 1) =~= seq![right[0]] + b.take(at));
            assert(parts_at(left, right, at + 1));
        }
        if comes_before(left, right) {
            let at = choose|at: int| #[trigger] parts_at(left, right, at);
            assert(at > 0);
            assert(a.take(at - 1) =~= left.take(at).skip(1));
            assert(b.take(at - 1) =~= right.take(at).skip(1));
            assert(parts_at(a, b, at - 1));
        }
    }
}

/// The listing of an ingested model's weights has the line of every tensor, each once, in
/// ascending order.
pub proof fn listings_are_ascending(tensors: Seq<TensorView>) -> (lines: Seq<Seq<char>>)
    ensures
        weights_listing(tensors) == joined(lines),
        lines.to_multiset() == tensors.map_values(
            |tensor: TensorView| tensor_line(tensor),
        ).to_multiset(),
        forall|i: int, j: int|
            0 <= i < j < lines.len() ==> #[trigger] lines[i] == #[trigger] lines[j] || comes_before(
                lines[i],
                lines[j],
            ),
{
    let lines = tensor_lines(tensors).sort_by(lexicographic());
    lexicographic_is_total();
    tensor_lines(tensors).lemma_sort_by_ensures(lexicographic());
    let leq = lexicographic();
    assert forall|i: int, j: int| 0 <= i < j < lines.len() implies #[trigger] lines[i]
        == #[trigger] lines[j] || comes_before(lines[i], lines[j]) by {
        assert(leq(lines[i], lines[j]));
        texts_are_ordered_by_their_characters(lines[i], lines[j]);
    }
    lines
}

/// The names that everything else goes by.
pub proof fn names_are_fixed()
    ensures
        INGESTOR_ID@ == "gguf-qwen2"@,
        GGUF_FILE_NAME@ == "model.gguf"@,
        SUPPORTED_ARCHITECTURE@ == "qwen2"@,
        TOKEN_EMBEDDING@ == "token_embedding"@,
        LM_HEAD@ == "lm_head"@,
{
}

/// What is said of a tensor is what its fields hold, and of several what is said of each.
pub proof fn tensors_are_seen_as_they_are(tensors: Seq<ModelTensorMetadata>, at: int)
    requires
        0 <= at < tensors.len(),
    ensures
        ({
            let seen = tensor_views(tensors)[at];
            let tensor = tensors[at];
            &&& tensor_views(tensors).len() == tensors.len()
            &&& seen.name == tensor.name@
            &&& seen.shape == tensor.shape@
            &&& seen.storage_dtype == tensor.storage_dtype
            &&& seen.layout is Some <==> tensor.layout is Some
            &&& tensor.layout is Some ==> seen.layout->Some_0 == tensor.layout->Some_0@
            &&& seen.shard is Some <==> tensor.shard is Some
            &&& tensor.shard is Some ==> seen.shard->Some_0 == tensor.shard->Some_0@
            &&& seen.offset_bytes == tensor.offset_bytes
            &&& seen.size_bytes == tensor.size_bytes
            &&& seen.quantization == tensor.quantization
            &&& seen.expected_compute_dtype == tensor.expected_compute_dtype
            &&& seen.digest is Some <==> tensor.digest is Some
            &&& tensor.digest is Some ==> seen.digest->Some_0 == (
                tensor.digest->Some_0.algorithm@,
                tensor.digest->Some_0.value@,
            )
        }),
{
}

/// What an error says is of its own category, with its own text.
pub proof fn errors_are_seen_as_they_are(error: ProductionIngestionError)
    ensures
        error is UnsupportedFormat ==> error@ == (
            IngestionErrorKind::UnsupportedFormat,
            error->UnsupportedFormat_reason@,
        ),
        error is RequiredPartMissing ==> error@ == (
            IngestionErrorKind::RequiredPartMissing,
            error->part@,
        ),
        error is MalformedMetadata ==> error@ == (
            IngestionErrorKind::MalformedMetadata,
            error->MalformedMetadata_reason@,
        ),
        error is PayloadOutOfBounds ==> error@ == (
            IngestionErrorKind::PayloadOutOfBounds,
            error->PayloadOutOfBounds_identity@,
        ),
        error is PayloadUnavailable ==> error@ == (
            IngestionErrorKind::PayloadUnavailable,
            error->PayloadUnavailable_identity@,
        ),
        error is IntegrityMismatch ==> error@ == (
            IngestionErrorKind::IntegrityMismatch,
            error->IntegrityMismatch_identity@,
        ),
        error is UnauthorizedSource ==> error@ == (
            IngestionErrorKind::UnauthorizedSource,
            error->UnauthorizedSource_reason@,
        ),
        error is ImplementationUnavailable ==> error@ == (
            IngestionErrorKind::ImplementationUnavailable,
            error->ImplementationUnavailable_reason@,
        ),
        plain_outcome(Err::<(), _>(error)) == Err::<(), _>(error@),
{
}

} // verus!
