//! What a model artifact is made of: element types, tensors, digests, the
//! architecture's parameters and the manifest.

use vstd::prelude::*;

use crate::name_map::NameMap;

verus! {

/// The version of the manifest layout that [`ModelManifest`] follows.
pub const MODEL_ARTIFACT_SCHEMA_VERSION: u64 = 1;

/// The type of a tensor's elements.
#[derive(Clone, Copy, Debug, PartialEq, Eq, Structural)]
pub enum ModelDType {
    Bool,
    U8,
    I8,
    U16,
    I16,
    U32,
    I32,
    U64,
    I64,
    F16,
    Bf16,
    F32,
    F64,
    Q4K,
    Q5K,
    Q8,
}

/// The bytes that one element of a type takes. A block format counts one: its
/// elements have no width of their own.
pub open spec fn element_bytes(dtype: ModelDType) -> u64 {
    match dtype {
        ModelDType::Bool => 1,
        ModelDType::U8 => 1,
        ModelDType::I8 => 1,
        ModelDType::U16 => 2,
        ModelDType::I16 => 2,
        ModelDType::U32 => 4,
        ModelDType::I32 => 4,
        ModelDType::U64 => 8,
        ModelDType::I64 => 8,
        ModelDType::F16 => 2,
        ModelDType::Bf16 => 2,
        ModelDType::F32 => 4,
        ModelDType::F64 => 8,
        ModelDType::Q4K => 1,
        ModelDType::Q5K => 1,
        ModelDType::Q8 => 1,
    }
}

/// Whether a type is one of the block formats.
pub open spec fn is_block_format(dtype: ModelDType) -> bool {
    dtype == ModelDType::Q8 || dtype == ModelDType::Q4K || dtype == ModelDType::Q5K
}

impl ModelDType {
    /// The bytes that one element takes.
    pub fn size_bytes(self) -> (bytes: u64)
        ensures
            bytes == element_bytes(self),
            1 <= bytes <= 8,
    {
        match self {
            ModelDType::Bool => 1,
            ModelDType::U8 => 1,
            ModelDType::I8 => 1,
            ModelDType::U16 => 2,
            ModelDType::I16 => 2,
            ModelDType::U32 => 4,
            ModelDType::I32 => 4,
            ModelDType::U64 => 8,
            ModelDType::I64 => 8,
            ModelDType::F16 => 2,
            ModelDType::Bf16 => 2,
            ModelDType::F32 => 4,
            ModelDType::F64 => 8,
            ModelDType::Q4K => 1,
            ModelDType::Q5K => 1,
            ModelDType::Q8 => 1,
        }
    }
}

/// How a tensor is quantized.
#[derive(Clone, Copy, Debug, PartialEq, Eq, Structural)]
pub enum ModelQuantizationFormat {
    GgufQ4K,
    GgufQ5K,
    GgufQ8,
    Gptq,
    Awq,
    BitsAndBytes,
}

/// The quantization a tensor declares.
#[derive(Clone, Copy, Debug, PartialEq, Eq, Structural)]
pub struct ModelQuantization {
    pub format: ModelQuantizationFormat,
    pub group_size: Option<u32>,
    pub block_size: Option<u32>,
    pub scale_dtype: Option<ModelDType>,
    pub zero_point_dtype: Option<ModelDType>,
    pub per_channel: bool,
    pub workspace_bytes: Option<u64>,
}

/// A content digest: its algorithm and its value.
#[derive(Debug)]
pub struct ModelDigest {
    pub algorithm: String,
    pub value: String,
}

/// The algorithm and the value of a digest.
pub type DigestView = (Seq<char>, Seq<char>);

impl View for ModelDigest {
    type V = DigestView;

    open spec fn view(&self) -> DigestView {
        (self.algorithm@, self.value@)
    }
}

impl Clone for ModelDigest {
    fn clone(&self) -> (copy: Self)
        ensures
            copy@ == self@,
    {
        ModelDigest { algorithm: self.algorithm.clone(), value: self.value.clone() }
    }
}

/// An optional digest by its view.
pub open spec fn digest_view(digest: Option<ModelDigest>) -> Option<DigestView> {
    match digest {
        Some(digest) => Some(digest@),
        None => None,
    }
}

/// An optional text by its view.
pub open spec fn text_view(text: Option<String>) -> Option<Seq<char>> {
    match text {
        Some(text) => Some(text@),
        None => None,
    }
}

/// One tensor of an artifact: its name, its shape, its element type and where its
/// bytes stand.
#[derive(Debug)]
pub struct ModelTensorMetadata {
    pub name: String,
    pub shape: Vec<u64>,
    pub storage_dtype: ModelDType,
    pub layout: Option<String>,
    pub shard: Option<String>,
    pub offset_bytes: Option<u64>,
    pub size_bytes: Option<u64>,
    pub quantization: Option<ModelQuantization>,
    pub expected_compute_dtype: Option<ModelDType>,
    pub digest: Option<ModelDigest>,
}

/// What a [`ModelTensorMetadata`] says.
#[verifier::ext_equal]
pub struct TensorView {
    pub name: Seq<char>,
    pub shape: Seq<u64>,
    pub storage_dtype: ModelDType,
    pub layout: Option<Seq<char>>,
    pub shard: Option<Seq<char>>,
    pub offset_bytes: Option<u64>,
    pub size_bytes: Option<u64>,
    pub quantization: Option<ModelQuantization>,
    pub expected_compute_dtype: Option<ModelDType>,
    pub digest: Option<DigestView>,
}

impl View for ModelTensorMetadata {
    type V = TensorView;

    open spec fn view(&self) -> TensorView {
        TensorView {
            name: self.name@,
            shape: self.shape@,
            storage_dtype: self.storage_dtype,
            layout: text_view(self.layout),
            shard: text_view(self.shard),
            offset_bytes: self.offset_bytes,
            size_bytes: self.size_bytes,
            quantization: self.quantization,
            expected_compute_dtype: self.expected_compute_dtype,
            digest: digest_view(self.digest),
        }
    }
}

/// The numbers of a list, once more.
pub(crate) fn copy_numbers(numbers: &Vec<u64>) -> (copy: Vec<u64>)
    ensures
        copy@ == numbers@,
{
    let mut copy: Vec<u64> = Vec::new();
    let mut at: usize = 0;
    while at < numbers.len()
        invariant
            at <= numbers@.len(),
            copy@ == numbers@.take(at as int),
        decreases numbers@.len() - at,
    {
        assert(numbers@.take(at + 1) =~= numbers@.take(at as int).push(numbers@[at as int]));
        copy.push(numbers[at]);
        at += 1;
    }
    assert(numbers@.take(at as int) =~= numbers@);
    copy
}

fn copy_text(text: &Option<String>) -> (copy: Option<String>)
    ensures
        text_view(copy) == text_view(*text),
{
    match text {
        Some(text) => Some(text.clone()),
        None => None,
    }
}

impl Clone for ModelTensorMetadata {
    fn clone(&self) -> (copy: Self)
        ensures
            copy@ == self@,
    {
        ModelTensorMetadata {
            name: self.name.clone(),
            shape: copy_numbers(&self.shape),
            storage_dtype: self.storage_dtype,
            layout: copy_text(&self.layout),
            shard: copy_text(&self.shard),
            offset_bytes: self.offset_bytes,
            size_bytes: self.size_bytes,
            quantization: self.quantization,
            expected_compute_dtype: self.expected_compute_dtype,
            digest: match &self.digest {
                Some(digest) => Some(digest.clone()),
                None => None,
            },
        }
    }
}

/// What a list of tensors says, one by one.
pub open spec fn tensor_views(tensors: Seq<ModelTensorMetadata>) -> Seq<TensorView> {
    Seq::new(tensors.len(), |at: int| tensors[at]@)
}

/// Which bytes a caller asks for: those of the tensor `identity`, which it
/// expects at `offset` and `length` bytes long.
#[derive(Debug)]
pub struct ProductionPayloadRange {
    pub identity: String,
    pub offset: u64,
    pub length: u64,
    pub digest: Option<ModelDigest>,
}

/// What a range asks for: a tensor, where it is expected, and the digest of its
/// bytes where one is declared.
#[verifier::ext_equal]
pub struct RangeView {
    pub identity: Seq<char>,
    pub offset: u64,
    pub length: u64,
    pub digest: Option<DigestView>,
}

impl View for ProductionPayloadRange {
    type V = RangeView;

    open spec fn view(&self) -> RangeView {
        RangeView {
            identity: self.identity@,
            offset: self.offset,
            length: self.length,
            digest: digest_view(self.digest),
        }
    }
}

/// The parameters of a decoder architecture. The three fractions are held as the
/// bit patterns of their numbers: single precision for `rms_norm_eps` and
/// `rope_scaling_factor`, double precision for `rope_theta`.
#[derive(Clone, Copy, Debug, PartialEq, Eq, Structural)]
pub struct ModelArchitectureConfig {
    pub hidden_size: u64,
    pub intermediate_size: u64,
    pub num_hidden_layers: u32,
    pub num_attention_heads: u32,
    pub num_key_value_heads: u32,
    pub head_dim: u64,
    pub vocab_size: u64,
    pub rms_norm_eps: u32,
    pub rope_theta: u64,
    pub rope_scaling_factor: Option<u32>,
    pub tie_word_embeddings: bool,
    pub attention_bias: bool,
    pub bos_token_id: Option<u32>,
    pub eos_token_id: Option<u32>,
}

/// Whether an architecture is consistent: no count is zero, the attention heads
/// divide evenly among the key-value heads, and the width of all heads together
/// fits in a `u64`.
pub open spec fn is_consistent(config: ModelArchitectureConfig) -> bool {
    &&& config.hidden_size != 0
    &&& config.intermediate_size != 0
    &&& config.num_hidden_layers != 0
    &&& config.num_attention_heads != 0
    &&& config.num_key_value_heads != 0
    &&& config.head_dim != 0
    &&& config.vocab_size != 0
    &&& config.num_attention_heads % config.num_key_value_heads == 0
    &&& config.head_dim * config.num_attention_heads <= u64::MAX
}

/// What an artifact or one of its parts is.
#[derive(Clone, Copy, Debug, PartialEq, Eq, Structural)]
pub enum ModelArtifactKind {
    ModelBundle,
    ModelWeights,
    ModelConfig,
    ChatTemplate,
}

/// The container an artifact came in.
#[derive(Clone, Copy, Debug, PartialEq, Eq, Structural)]
pub enum ArtifactFormat {
    HuggingFace,
    Gguf,
}

/// The identity of an artifact.
#[derive(Debug)]
pub struct ModelArtifactId {
    pub kind: ModelArtifactKind,
    pub name: String,
    pub revision: String,
    pub digest: ModelDigest,
}

/// What a [`ModelArtifactId`] says.
#[verifier::ext_equal]
pub struct ArtifactIdView {
    pub kind: ModelArtifactKind,
    pub name: Seq<char>,
    pub revision: Seq<char>,
    pub digest: DigestView,
}

impl View for ModelArtifactId {
    type V = ArtifactIdView;

    open spec fn view(&self) -> ArtifactIdView {
        ArtifactIdView {
            kind: self.kind,
            name: self.name@,
            revision: self.revision@,
            digest: self.digest@,
        }
    }
}

/// The architecture a model belongs to.
#[derive(Debug)]
pub struct ModelArchitecture {
    pub family: String,
    pub identifier: String,
}

/// One part of an artifact, by the digest of its content.
#[derive(Debug)]
pub struct ModelArtifactPart {
    pub name: String,
    pub kind: ModelArtifactKind,
    pub digest: ModelDigest,
    pub size_bytes: Option<u64>,
    pub required: bool,
}

/// What a [`ModelArtifactPart`] says.
#[verifier::ext_equal]
pub struct PartView {
    pub name: Seq<char>,
    pub kind: ModelArtifactKind,
    pub digest: DigestView,
    pub size_bytes: Option<u64>,
    pub required: bool,
}

impl View for ModelArtifactPart {
    type V = PartView;

    open spec fn view(&self) -> PartView {
        PartView {
            name: self.name@,
            kind: self.kind,
            digest: self.digest@,
            size_bytes: self.size_bytes,
            required: self.required,
        }
    }
}

/// What the parts of an artifact say, under their names.
pub open spec fn part_views(parts: Map<Seq<char>, ModelArtifactPart>) -> Map<Seq<char>, PartView> {
    parts.map_values(|part: ModelArtifactPart| part@)
}

/// Who made an artifact, how and from what, as far as it is told.
#[derive(Debug)]
pub struct ModelProvenance {
    pub source_repository: Option<String>,
    pub source_model_id: Option<String>,
    pub conversion_tool: Option<String>,
    pub conversion_timestamp: Option<String>,
    pub builder: Option<String>,
    pub commit_digest: Option<String>,
    pub publisher: Option<String>,
}

/// A signature over an artifact's digest, and the key that it was made with.
#[derive(Debug)]
pub struct ModelSignature {
    pub kind: String,
    pub key_id: Option<String>,
    pub digest: ModelDigest,
    pub signature: Option<[u8; 64]>,
}

/// The description of a model artifact. `S` tells where it came from.
#[derive(Debug)]
pub struct ModelManifest<S> {
    pub schema_version: u64,
    pub id: ModelArtifactId,
    pub architecture: ModelArchitecture,
    pub parts: NameMap<ModelArtifactPart>,
    pub storage_dtype: Option<ModelDType>,
    pub supported_compute_dtypes: Vec<ModelDType>,
    pub tensors: Vec<ModelTensorMetadata>,
    pub chat_template: Option<String>,
    pub provenance: Option<ModelProvenance>,
    pub signatures: Vec<ModelSignature>,
    pub source: Option<S>,
    pub architecture_config: Option<ModelArchitectureConfig>,
    pub artifact_format: ArtifactFormat,
}

} // verus!
