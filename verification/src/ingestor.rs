//! The ingestor: from a bundle's file to a manifest and access to its payloads.
//!
//! Ingestion goes in two steps. [`GgufIngestor::ingest`] decides everything that the
//! file's content decides; [`PreparedIngestion::complete`] puts the manifest together
//! once the content's digests are known. A manifest is a description: it grants no
//! trust.

use vstd::prelude::*;
use vstd::string::StringExecFns;
use vstd::utf8::encode_utf8;

use crate::config::{normalize, normalized, SUPPORTED_ARCHITECTURE};
use crate::derived_lm_head::{append_synthetic_lm_head_if_tied, position_of};
use crate::derived_lm_head::{embedding_place, first_named, has_named, tied_head};
use crate::derived_lm_head::{DerivedLmHeadPayloadSource, LM_HEAD, TOKEN_EMBEDDING};
use crate::error::{malformed, malformed_view};
use crate::error::{ErrorView, IngestionErrorKind, ProductionIngestionError};
use crate::identity::{is_identity, is_identity_char, may_stand};
use crate::listing::{list_weights, weights_listing};
use crate::metadata::{string_at, string_value, GgufMetadata, MetadataView};
use crate::model::{digest_view, part_views, tensor_views, text_view};
use crate::model::{ArtifactFormat, ArtifactIdView, DigestView, PartView, TensorView};
use crate::model::{ModelArchitecture, ModelArchitectureConfig, ModelArtifactId};
use crate::model::{ModelArtifactKind, ModelArtifactPart, ModelDType, ModelDigest, ModelManifest};
use crate::model::{ModelProvenance, ModelSignature};
use crate::model::{ModelTensorMetadata, MODEL_ARTIFACT_SCHEMA_VERSION};
use crate::name_map::NameMap;
use crate::pipeline::{IngestedPayloadSource, IngestedView};
use crate::text::{characters, ends_with, strip_suffix};
use crate::weight_layout::{all_relaid, projection_shapes};
use crate::weight_layout::{swap_declared_projection_shapes, TransposingPayloadSource};
use crate::weights::{discover_and_parse_weights, discovered, load_defect, loaded_artifact};
use crate::weights::{ArtifactLoad, GgufPayloadSource, PayloadSourceView, GGUF_FILE_NAME};

verus! {

/// The identity under which the ingestor is registered.
pub const INGESTOR_ID: &'static str = "gguf-qwen2";

/// The ingestor of GGUF files.
#[derive(Clone, Copy, Debug, Default)]
pub struct GgufIngestor;

/// A character that may stand in an identity: the same, or a dash for another.
pub open spec fn identity_char(ch: char) -> char {
    if is_identity_char(ch) {
        ch
    } else {
        '-'
    }
}

/// The identity that a model gets from its display name.
pub open spec fn sanitized_name(raw: Seq<char>) -> Seq<char> {
    if raw.len() == 0 {
        "gguf-bundle"@
    } else {
        "gguf-"@ + raw.map_values(|ch: char| identity_char(ch))
    }
}

/// Makes an identity of a model's display name.
pub fn sanitize_model_name(raw: &str) -> (name: String)
    ensures
        name@ == sanitized_name(raw@),
{
    let chars: Vec<char> = characters(raw);
    if chars.len() == 0 {
        return String::from_str("gguf-bundle");
    }
    let ghost goal = raw@.map_values(|ch: char| identity_char(ch));
    let mut name: String = String::from_str("gguf-");
    let mut at: usize = 0;
    assert(name@ =~= "gguf-"@ + goal.take(0));
    while at < chars.len()
        invariant
            at <= chars@.len(),
            chars@ == raw@,
            goal == raw@.map_values(|ch: char| identity_char(ch)),
            name@ == "gguf-"@ + goal.take(at as int),
        decreases chars@.len() - at,
    {
        let ghost before = name@;
        let ch: char = if may_stand(chars[at]) {
            chars[at]
        } else {
            '-'
        };
        assert(goal.take(at + 1) =~= goal.take(at as int).push(ch));
        name.push(ch);
        assert(name@ =~= "gguf-"@ + goal.take(at + 1));
        at += 1;
    }
    assert(goal.take(at as int) =~= goal);
    name
}

/// Every name that a model can get is an identity.
pub proof fn sanitized_names_are_identities(raw: Seq<char>)
    ensures
        is_identity(sanitized_name(raw)),
{
    reveal_strlit("gguf-bundle");
    reveal_strlit("gguf-");
}

/// The text of the chat template that metadata declares.
pub open spec fn declared_chat_template(metadata: MetadataView) -> Option<Seq<char>> {
    string_at(metadata, "tokenizer.chat_template"@)
}

fn read_chat_template(metadata: &GgufMetadata) -> (template: Option<String>)
    ensures
        text_view(template) == declared_chat_template(metadata@),
{
    match string_value(metadata, "tokenizer.chat_template") {
        Some(template) => Some(String::from_str(template)),
        None => None,
    }
}

/// The chat template that a bundle's file declares, if any. The manifest only refers
/// to it by name; whoever wants to render it loads it here.
pub fn load_gguf_chat_template(load: ArtifactLoad) -> (template: Result<
    Option<String>,
    ProductionIngestionError,
>)
    ensures
        match (load, template) {
            (ArtifactLoad::Parsed(artifact), Ok(template)) => text_view(template)
                == declared_chat_template(artifact.metadata@),
            (ArtifactLoad::Parsed(_), Err(_)) => false,
            (_, Ok(_)) => false,
            (_, Err(error)) => load_defect(load) == Some(error@),
        },
{
    match loaded_artifact(load) {
        Ok(artifact) => Ok(read_chat_template(&artifact.metadata)),
        Err(error) => Err(error),
    }
}

/// What ingestion has decided before the digests are known.
#[derive(Debug)]
pub struct PreparedIngestion {
    /// The tensors as consumers see them.
    pub tensors: Vec<ModelTensorMetadata>,
    /// The architecture's parameters.
    pub architecture_config: ModelArchitectureConfig,
    /// Access to the tensors' bytes.
    pub payload_source: IngestedPayloadSource,
    /// The listing whose digest identifies the weights.
    pub weights_listing: String,
    /// The chat template, if one is declared.
    pub chat_template: Option<String>,
    /// The model's name.
    pub name: String,
}

/// What a [`PreparedIngestion`] says.
#[verifier::ext_equal]
pub struct PreparedView {
    pub tensors: Seq<TensorView>,
    pub architecture_config: ModelArchitectureConfig,
    pub payload_source: IngestedView,
    pub weights_listing: Seq<char>,
    pub chat_template: Option<Seq<char>>,
    pub name: Seq<char>,
}

impl View for PreparedIngestion {
    type V = PreparedView;

    open spec fn view(&self) -> PreparedView {
        PreparedView {
            tensors: tensor_views(self.tensors@),
            architecture_config: self.architecture_config,
            payload_source: self.payload_source@,
            weights_listing: self.weights_listing@,
            chat_template: text_view(self.chat_template),
            name: self.name@,
        }
    }
}

/// The rows of the embedding table among tensors.
pub open spec fn embedding_rows(tensors: Seq<TensorView>) -> Option<u64> {
    match first_named(tensors, TOKEN_EMBEDDING@) {
        Some(embedding) => if embedding.shape.len() > 0 {
            Some(embedding.shape[0])
        } else {
            None
        },
        None => None,
    }
}

/// Whether a canonical name is that of the bias of an attention input: the queries, the keys
/// or the values.
pub open spec fn names_attention_bias(name: Seq<char>) -> bool {
    ||| ends_with(name, "self_attn.q_bias"@)
    ||| ends_with(name, "self_attn.k_bias"@)
    ||| ends_with(name, "self_attn.v_bias"@)
}

/// Whether some attention input among tensors carries a bias.
pub open spec fn has_attention_bias(tensors: Seq<TensorView>) -> bool {
    exists|at: int| 0 <= at < tensors.len() && names_attention_bias((#[trigger] tensors[at]).name)
}

/// The display name that metadata declares, or that of the architecture.
pub open spec fn display_name(metadata: MetadataView) -> Seq<char> {
    match string_at(metadata, "general.name"@) {
        Some(name) => name,
        None => SUPPORTED_ARCHITECTURE@,
    }
}

/// What ingestion decides for tensors that were discovered and parameters that were
/// read. The tensors say whether the embedding is tied: it is where no output head
/// is among them.
pub open spec fn prepared_with(
    tensors: Seq<TensorView>,
    file: PayloadSourceView,
    metadata: MetadataView,
    config: ModelArchitectureConfig,
) -> Result<PreparedView, ErrorView> {
    let tied = !has_named(tensors, LM_HEAD@);
    let relaid = all_relaid(tensors);
    let embedding = first_named(relaid, TOKEN_EMBEDDING@).unwrap();
    if tied && embedding_place(embedding) is None {
        Err(
            malformed_view(
                "token_embedding is missing the offset/size/shape metadata needed to derive a tied lm_head"@,
            ),
        )
    } else {
        let complete = if tied {
            relaid.push(tied_head(embedding))
        } else {
            relaid
        };
        Ok(
            PreparedView {
                tensors: complete,
                architecture_config: ModelArchitectureConfig {
                    attention_bias: has_attention_bias(tensors),
                    tie_word_embeddings: tied,
                    ..config
                },
                payload_source: IngestedView {
                    file,
                    projections: projection_shapes(tensors),
                    embedding: if tied {
                        embedding_place(embedding)
                    } else {
                        None
                    },
                },
                weights_listing: weights_listing(complete),
                chat_template: declared_chat_template(metadata),
                name: sanitized_name(display_name(metadata)),
            },
        )
    }
}

/// What ingestion decides for a file with the given tensors and metadata.
pub open spec fn prepared(
    raw: Seq<TensorView>,
    tensor_data_start: u64,
    metadata: MetadataView,
) -> Result<PreparedView, ErrorView> {
    match discovered(raw) {
        Err(error) => Err(error),
        Ok((tensors, locations)) => if tensors.len() == 0 {
            Err(malformed_view("no tensors were discovered in this GGUF file"@))
        } else {
            match embedding_rows(tensors) {
                None => Err(malformed_view("no token_embedding tensor was discovered"@)),
                Some(vocab_size) => match normalized(metadata, vocab_size) {
                    Err(error) => Err(error),
                    Ok(config) => prepared_with(
                        tensors,
                        PayloadSourceView { tensor_data_start, locations },
                        metadata,
                        config,
                    ),
                },
            }
        },
    }
}

fn any_attention_bias(tensors: &Vec<ModelTensorMetadata>) -> (answer: bool)
    ensures
        answer == has_attention_bias(tensor_views(tensors@)),
{
    let ghost views = tensor_views(tensors@);
    let mut at: usize = 0;
    while at < tensors.len()
        invariant
            at <= tensors@.len(),
            views == tensor_views(tensors@),
            forall|i: int| 0 <= i < at ==> !names_attention_bias((#[trigger] views[i]).name),
        decreases tensors@.len() - at,
    {
        let name: &str = tensors[at].name.as_str();
        if strip_suffix(name, "self_attn.q_bias").is_some() || strip_suffix(
            name,
            "self_attn.k_bias",
        ).is_some() || strip_suffix(name, "self_attn.v_bias").is_some() {
            assert(names_attention_bias(views[at as int].name));
            return true;
        }
        at += 1;
    }
    false
}

/// Prepares an ingestion out of what was discovered and read.
fn prepare(
    tensors: Vec<ModelTensorMetadata>,
    source: GgufPayloadSource,
    metadata: &GgufMetadata,
    config: ModelArchitectureConfig,
) -> (ingestion: Result<PreparedIngestion, ProductionIngestionError>)
    requires
        has_named(tensor_views(tensors@), TOKEN_EMBEDDING@),
    ensures
        match ingestion {
            Ok(ingestion) => prepared_with(tensor_views(tensors@), source@, metadata@, config)
                == Ok::<_, ErrorView>(ingestion@),
            Err(error) => prepared_with(tensor_views(tensors@), source@, metadata@, config)
                == Err::<PreparedView, _>(error@),
        },
{
    let ghost found = tensor_views(tensors@);
    let mut tensors: Vec<ModelTensorMetadata> = tensors;
    let mut config: ModelArchitectureConfig = config;
    let tied: bool = position_of(&tensors, LM_HEAD).is_none();
    config.attention_bias = any_attention_bias(&tensors);
    config.tie_word_embeddings = tied;
    let transposing = TransposingPayloadSource::new(source, &tensors);
    swap_declared_projection_shapes(&mut tensors);
    let ghost relaid = tensor_views(tensors@);
    proof {
        let at = choose|at: int|
            0 <= at < found.len() && (#[trigger] found[at]).name == TOKEN_EMBEDDING@;
        assert(relaid[at].name == TOKEN_EMBEDDING@);
        assert(has_named(relaid, TOKEN_EMBEDDING@));
    }
    let payload_source: IngestedPayloadSource = if tied {
        let embedding: Option<usize> = position_of(&tensors, TOKEN_EMBEDDING);
        let derived: Option<
            DerivedLmHeadPayloadSource<TransposingPayloadSource<GgufPayloadSource>>,
        > = match embedding {
            Some(at) => DerivedLmHeadPayloadSource::new(transposing, &tensors[at]),
            None => None,
        };
        append_synthetic_lm_head_if_tied(&mut tensors, tied);
        match derived {
            Some(derived) => IngestedPayloadSource::Tied(derived),
            None => {
                return Err(
                    malformed(
                        String::from_str(
                            "token_embedding is missing the offset/size/shape metadata needed to derive a tied lm_head",
                        ),
                    ),
                );
            },
        }
    } else {
        IngestedPayloadSource::Stored(transposing)
    };
    let display: &str = match string_value(metadata, "general.name") {
        Some(name) => name,
        None => SUPPORTED_ARCHITECTURE,
    };
    let name: String = sanitize_model_name(display);
    let listing: String = list_weights(&tensors);
    let chat_template: Option<String> = read_chat_template(metadata);
    Ok(
        PreparedIngestion {
            tensors,
            architecture_config: config,
            payload_source,
            weights_listing: listing,
            chat_template,
            name,
        },
    )
}

impl GgufIngestor {
    /// The ingestor.
    pub fn new() -> (ingestor: Self)
        ensures
            ingestor == GgufIngestor,
    {
        GgufIngestor
    }

    /// The identity under which the ingestor is registered.
    pub fn ingestor_id(&self) -> (id: &'static str)
        ensures
            id@ == INGESTOR_ID@,
    {
        INGESTOR_ID
    }

    /// Ingests a bundle's file, up to the digests of its content.
    pub fn ingest(&self, load: ArtifactLoad) -> (ingestion: Result<
        PreparedIngestion,
        ProductionIngestionError,
    >)
        ensures
            match (load, ingestion) {
                (ArtifactLoad::Parsed(artifact), Ok(ingestion)) => prepared(
                    tensor_views(artifact.tensors@),
                    artifact.tensor_data_start,
                    artifact.metadata@,
                ) == Ok::<_, ErrorView>(ingestion@),
                (ArtifactLoad::Parsed(artifact), Err(error)) => prepared(
                    tensor_views(artifact.tensors@),
                    artifact.tensor_data_start,
                    artifact.metadata@,
                ) == Err::<PreparedView, _>(error@),
                (_, Ok(_)) => false,
                (_, Err(error)) => load_defect(load) == Some(error@),
            },
    {
        let (tensors, source, metadata) = match discover_and_parse_weights(load) {
            Ok(weights) => weights,
            Err(error) => return Err(error),
        };
        if tensors.len() == 0 {
            return Err(
                malformed(String::from_str("no tensors were discovered in this GGUF file")),
            );
        }
        let rows: Option<u64> = match position_of(&tensors, TOKEN_EMBEDDING) {
            Some(at) => {
                if tensors[at].shape.len() > 0 {
                    Some(tensors[at].shape[0])
                } else {
                    None
                }
            },
            None => None,
        };
        let vocab_size: u64 = match rows {
            Some(rows) => rows,
            None => {
                return Err(
                    malformed(String::from_str("no token_embedding tensor was discovered")),
                );
            },
        };
        let config: ModelArchitectureConfig = match normalize(&metadata, vocab_size) {
            Ok(config) => config,
            Err(error) => return Err(error),
        };
        prepare(tensors, source, &metadata, config)
    }
}

/// What came of reading a bundle's file once more, for its digest.
#[derive(Debug)]
pub enum FileReading {
    /// The bundle does not give access to the file any more.
    Unresolved(ProductionIngestionError),
    /// The file could not be read.
    Unreadable { error: String },
    /// The file's digest and its length.
    Read { digest: ModelDigest, length: u64 },
}

/// A manifest and access to its payloads.
#[derive(Debug)]
pub struct ProductionIngestionResult<S> {
    pub manifest: ModelManifest<S>,
    pub payload_source: IngestedPayloadSource,
}

/// What a [`ModelManifest`] says.
#[verifier::ext_equal]
pub struct ManifestView<S> {
    pub schema_version: u64,
    pub id: ArtifactIdView,
    pub family: Seq<char>,
    pub identifier: Seq<char>,
    pub parts: Map<Seq<char>, PartView>,
    pub storage_dtype: Option<ModelDType>,
    pub supported_compute_dtypes: Seq<ModelDType>,
    pub tensors: Seq<TensorView>,
    pub chat_template: Option<Seq<char>>,
    pub provenance: Option<ModelProvenance>,
    pub signatures: Seq<ModelSignature>,
    pub source: Option<S>,
    pub architecture_config: Option<ModelArchitectureConfig>,
    pub artifact_format: ArtifactFormat,
}

impl<S> View for ModelManifest<S> {
    type V = ManifestView<S>;

    open spec fn view(&self) -> ManifestView<S> {
        ManifestView {
            schema_version: self.schema_version,
            id: self.id@,
            family: self.architecture.family@,
            identifier: self.architecture.identifier@,
            parts: part_views(self.parts@),
            storage_dtype: self.storage_dtype,
            supported_compute_dtypes: self.supported_compute_dtypes@,
            tensors: tensor_views(self.tensors@),
            chat_template: text_view(self.chat_template),
            provenance: self.provenance,
            signatures: self.signatures@,
            source: self.source,
            architecture_config: self.architecture_config,
            artifact_format: self.artifact_format,
        }
    }
}

/// The parts of an artifact: the file's metadata, under the digest of the whole file;
/// the weights, under the digest of their listing; and the chat template, where one is
/// declared.
pub open spec fn artifact_parts(
    file: DigestView,
    length: u64,
    weights: DigestView,
    template: Option<(Seq<char>, DigestView)>,
) -> Map<Seq<char>, PartView> {
    let required = Map::<Seq<char>, PartView>::empty().insert(
        "gguf_metadata"@,
        PartView {
            name: "gguf_metadata"@,
            kind: ModelArtifactKind::ModelConfig,
            digest: file,
            size_bytes: Some(length),
            required: true,
        },
    ).insert(
        "weights"@,
        PartView {
            name: "weights"@,
            kind: ModelArtifactKind::ModelWeights,
            digest: weights,
            size_bytes: None,
            required: true,
        },
    );
    match template {
        Some((text, digest)) => required.insert(
            "chat_template"@,
            PartView {
                name: "chat_template"@,
                kind: ModelArtifactKind::ChatTemplate,
                digest,
                size_bytes: Some(encode_utf8(text).len() as u64),
                required: false,
            },
        ),
        None => required,
    }
}

/// The manifest of a prepared ingestion, given the digests of its content. It carries no
/// evidence of trust: nobody signed it, and it makes no claim about who made the artifact.
pub open spec fn completed<S>(
    prepared: PreparedView,
    file: DigestView,
    length: u64,
    weights: DigestView,
    template: Option<DigestView>,
    source: S,
) -> ManifestView<S> {
    ManifestView {
        schema_version: MODEL_ARTIFACT_SCHEMA_VERSION,
        id: ArtifactIdView {
            kind: ModelArtifactKind::ModelBundle,
            name: prepared.name,
            revision: "local"@,
            digest: file,
        },
        family: "qwen"@,
        identifier: SUPPORTED_ARCHITECTURE@,
        parts: artifact_parts(
            file,
            length,
            weights,
            match (prepared.chat_template, template) {
                (Some(text), Some(digest)) => Some((text, digest)),
                _ => None,
            },
        ),
        storage_dtype: if prepared.tensors.len() > 0 {
            Some(prepared.tensors[0].storage_dtype)
        } else {
            None
        },
        supported_compute_dtypes: seq![ModelDType::F32],
        tensors: prepared.tensors,
        chat_template: if prepared.chat_template is Some {
            Some("chat_template"@)
        } else {
            None
        },
        provenance: None,
        signatures: Seq::empty(),
        source: Some(source),
        architecture_config: Some(prepared.architecture_config),
        artifact_format: ArtifactFormat::Gguf,
    }
}

fn part(
    name: &str,
    kind: ModelArtifactKind,
    digest: ModelDigest,
    size_bytes: Option<u64>,
    required: bool,
) -> (part: ModelArtifactPart)
    ensures
        part@ == (PartView { name: name@, kind, digest: digest@, size_bytes, required }),
{
    ModelArtifactPart { name: String::from_str(name), kind, digest, size_bytes, required }
}

/// Inserting a part inserts what it says.
proof fn lemma_part_inserted(
    parts: Map<Seq<char>, ModelArtifactPart>,
    name: Seq<char>,
    part: ModelArtifactPart,
)
    ensures
        part_views(parts.insert(name, part)) == part_views(parts).insert(name, part@),
{
    assert(part_views(parts.insert(name, part)) =~= part_views(parts).insert(name, part@));
}

impl PreparedIngestion {
    /// Puts the manifest together: `weights` is the digest of the weights' listing,
    /// `template` that of the chat template where there is one, and `source` tells
    /// where the bundle came from.
    pub fn complete<S>(
        self,
        file: FileReading,
        weights: ModelDigest,
        template: Option<ModelDigest>,
        source: S,
    ) -> (result: Result<ProductionIngestionResult<S>, ProductionIngestionError>)
        requires
            template is Some <==> self.chat_template is Some,
        ensures
            match (file, result) {
                (FileReading::Unresolved(cause), Err(error)) => error@ == cause@,
                (FileReading::Unreadable { error: cause }, Err(error)) => error@ == (
                    IngestionErrorKind::RequiredPartMissing,
                    GGUF_FILE_NAME@ + " ("@ + cause@ + ")"@,
                ),
                (FileReading::Read { digest, length }, Ok(result)) => {
                    &&& result.payload_source == self.payload_source
                    &&& result.manifest@ == completed(
                        self@,
                        digest@,
                        length,
                        weights@,
                        digest_view(template),
                        source,
                    )
                },
                _ => false,
            },
    {
        let (digest, length): (ModelDigest, u64) = match file {
            FileReading::Unresolved(error) => return Err(error),
            FileReading::Unreadable { error } => {
                let mut text: String = String::from_str(GGUF_FILE_NAME);
                text.append(" (");
                text.append(error.as_str());
                text.append(")");
                return Err(ProductionIngestionError::RequiredPartMissing { part: text });
            },
            FileReading::Read { digest, length } => (digest, length),
        };
        let ghost goal = completed(
            self@,
            digest@,
            length,
            weights@,
            digest_view(template),
            source,
        );
        let mut parts: NameMap<ModelArtifactPart> = NameMap::new();
        assert(part_views(parts@) =~= Map::<Seq<char>, PartView>::empty());
        let metadata_part = part(
            "gguf_metadata",
            ModelArtifactKind::ModelConfig,
            digest.clone(),
            Some(length),
            true,
        );
        proof {
            lemma_part_inserted(parts@, "gguf_metadata"@, metadata_part);
        }
        parts.insert(String::from_str("gguf_metadata"), metadata_part);
        let weights_part = part("weights", ModelArtifactKind::ModelWeights, weights, None, true);
        proof {
            lemma_part_inserted(parts@, "weights"@, weights_part);
        }
        parts.insert(String::from_str("weights"), weights_part);
        let reference: Option<String> = match (&self.chat_template, template) {
            (Some(text), Some(digest)) => {
                let template_part = part(
                    "chat_template",
                    ModelArtifactKind::ChatTemplate,
                    digest,
                    Some(text.as_str().as_bytes().len() as u64),
                    false,
                );
                proof {
                    lemma_part_inserted(parts@, "chat_template"@, template_part);
                }
                parts.insert(String::from_str("chat_template"), template_part);
                Some(String::from_str("chat_template"))
            },
            _ => None,
        };
        assert(part_views(parts@) == goal.parts);
        let storage_dtype: Option<ModelDType> = if self.tensors.len() > 0 {
            Some(self.tensors[0].storage_dtype)
        } else {
            None
        };
        let mut supported_compute_dtypes: Vec<ModelDType> = Vec::new();
        supported_compute_dtypes.push(ModelDType::F32);
        assert(supported_compute_dtypes@ =~= seq![ModelDType::F32]);
        let manifest = ModelManifest {
            schema_version: MODEL_ARTIFACT_SCHEMA_VERSION,
            id: ModelArtifactId {
                kind: ModelArtifactKind::ModelBundle,
                name: self.name,
                revision: String::from_str("local"),
                digest,
            },
            architecture: ModelArchitecture {
                family: String::from_str("qwen"),
                identifier: String::from_str(SUPPORTED_ARCHITECTURE),
            },
            parts,
            storage_dtype,
            supported_compute_dtypes,
            tensors: self.tensors,
            chat_template: reference,
            provenance: None,
            signatures: Vec::new(),
            source: Some(source),
            architecture_config: Some(self.architecture_config),
            artifact_format: ArtifactFormat::Gguf,
        };
        assert(manifest@ =~= goal);
        Ok(ProductionIngestionResult { manifest, payload_source: self.payload_source })
    }
}

} // verus!
