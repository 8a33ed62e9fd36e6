//! Discovery of the tensors in a GGUF file, and bounded access to their bytes.
//!
//! All tensors stand in one file. A tensor in a block format is unpacked to
//! single precision when its bytes are read, before anything else looks at them:
//! what was discovered therefore says `F32` of it, and the size that the unpacked
//! elements take.

use vstd::prelude::*;
use vstd::string::StringExecFns;

use crate::dequantize::{whole_blocks_keep_their_elements, Q8_0_BLOCK_BYTES, Q8_0_BLOCK_ELEMENTS};
use crate::dequantize::{Q4_K_BLOCK_BYTES, Q5_K_BLOCK_BYTES, QK_BLOCK_ELEMENTS};
use crate::error::{malformed, malformed_view, plain_outcome};
use crate::error::{ErrorView, IngestionErrorKind, ProductionIngestionError};
use crate::metadata::GgufMetadata;
use crate::model::{is_block_format, tensor_views, DigestView, RangeView, TensorView};
use crate::model::{ModelDType, ModelTensorMetadata, ProductionPayloadRange};
use crate::name_map::NameMap;
use crate::naming::{canonical_name, canonical_names_are_distinct, normalize_tensor_name};
use crate::payload::{delivered, PayloadRead, PayloadRequest, ReadView, RequestView};
use crate::text::{decimal, decimal_text};

verus! {

/// The one file of a bundle that is read.
pub const GGUF_FILE_NAME: &'static str = "model.gguf";

/// A parsed GGUF file. The tensors give their bytes' place relative to
/// `tensor_data_start`, and their dimensions innermost first.
#[derive(Debug)]
pub struct GgufArtifact {
    pub tensors: Vec<ModelTensorMetadata>,
    pub metadata: GgufMetadata,
    pub tensor_data_start: u64,
}

/// What came of locating, reading and parsing a bundle's file.
#[derive(Debug)]
pub enum ArtifactLoad {
    /// The bundle has no such file, or does not give access to it.
    Unresolved,
    /// The file at `path` could not be read.
    Unreadable { path: String, error: String },
    /// The bytes are not those of a GGUF file.
    Unparsable { error: String },
    /// The file's content.
    Parsed(GgufArtifact),
}

/// What is wrong with a bundle's file, where it could not be loaded.
pub open spec fn load_defect(load: ArtifactLoad) -> Option<ErrorView> {
    match load {
        ArtifactLoad::Unresolved => Some(
            (IngestionErrorKind::RequiredPartMissing, GGUF_FILE_NAME@),
        ),
        ArtifactLoad::Unreadable { path, error } => Some(
            (IngestionErrorKind::RequiredPartMissing, path@ + " ("@ + error@ + ")"@),
        ),
        ArtifactLoad::Unparsable { error } => Some(
            malformed_view(GGUF_FILE_NAME@ + " failed to parse as GGUF: "@ + error@),
        ),
        ArtifactLoad::Parsed(_) => None,
    }
}

/// The content of a bundle's file, or why there is none.
pub fn loaded_artifact(load: ArtifactLoad) -> (artifact: Result<
    GgufArtifact,
    ProductionIngestionError,
>)
    ensures
        artifact matches Ok(artifact) ==> load == ArtifactLoad::Parsed(artifact),
        artifact matches Err(error) ==> load_defect(load) == Some(error@),
{
    match load {
        ArtifactLoad::Unresolved => Err(
            ProductionIngestionError::RequiredPartMissing {
                part: String::from_str(GGUF_FILE_NAME),
            },
        ),
        ArtifactLoad::Unreadable { path, error } => {
            let mut part: String = path;
            part.append(" (");
            part.append(error.as_str());
            part.append(")");
            Err(ProductionIngestionError::RequiredPartMissing { part })
        },
        ArtifactLoad::Unparsable { error } => {
            let mut reason: String = String::from_str(GGUF_FILE_NAME);
            reason.append(" failed to parse as GGUF: ");
            reason.append(error.as_str());
            Err(malformed(reason))
        },
        ArtifactLoad::Parsed(artifact) => Ok(artifact),
    }
}

/// How the bytes of a tensor stand in the file.
#[derive(Clone, Copy, Debug, PartialEq, Eq, Structural)]
pub enum TensorSource {
    Plain,
    Q8_0,
    Q4K,
    Q5K,
}

/// Where a tensor stands in the file, and what is handed out for it:
/// `file_length` bytes at `file_offset` are read, and `declared_length` bytes come
/// of them. The two lengths differ where the tensor is unpacked.
#[derive(Clone, Copy, Debug, PartialEq, Eq, Structural)]
pub struct TensorLocation {
    pub file_offset: u64,
    pub file_length: u64,
    pub declared_length: u64,
    pub source: TensorSource,
}

/// The product of the dimensions, where no partial product overflows.
pub open spec fn counted(shape: Seq<u64>) -> Option<u64>
    decreases shape.len(),
{
    if shape.len() == 0 {
        Some(1)
    } else {
        match counted(shape.drop_last()) {
            Some(count) => if count * shape.last() <= u64::MAX {
                Some((count * shape.last()) as u64)
            } else {
                None
            },
            None => None,
        }
    }
}

/// The elements that one block of a format holds.
pub open spec fn block_elements(dtype: ModelDType) -> u64 {
    if dtype == ModelDType::Q8 {
        Q8_0_BLOCK_ELEMENTS
    } else {
        QK_BLOCK_ELEMENTS
    }
}

/// How a tensor of a type stands in the file.
pub open spec fn source_of(dtype: ModelDType) -> TensorSource {
    match dtype {
        ModelDType::Q8 => TensorSource::Q8_0,
        ModelDType::Q4K => TensorSource::Q4K,
        ModelDType::Q5K => TensorSource::Q5K,
        _ => TensorSource::Plain,
    }
}

/// The bytes that a block-format tensor takes once it is unpacked, or why it cannot
/// be.
pub open spec fn unpacked_length(
    name: Seq<char>,
    shape: Seq<u64>,
    dtype: ModelDType,
) -> Result<u64, ErrorView> {
    match counted(shape) {
        None => Err(malformed_view("tensor element count overflowed"@)),
        Some(elements) => if elements % block_elements(dtype) != 0 {
            Err(
                malformed_view(
                    "tensor '"@ + name + "' element count "@ + decimal_text(elements as nat)
                        + " is not a multiple of its quantization format's block size "@
                        + decimal_text(block_elements(dtype) as nat),
                ),
            )
        } else if elements * 4 > u64::MAX {
            Err(malformed_view("tensor '"@ + name + "' dequantized byte size overflowed"@))
        } else {
            Ok((elements * 4) as u64)
        },
    }
}

/// What is discovered of one tensor: its description, with the canonical name and
/// the outermost dimension first, and its location; or why it is refused.
pub open spec fn discovered_tensor(raw: TensorView) -> Result<
    (TensorView, TensorLocation),
    ErrorView,
> {
    match (raw.offset_bytes, raw.size_bytes) {
        (Some(file_offset), Some(file_length)) => {
            let shape = raw.shape.reverse();
            let dtype = raw.storage_dtype;
            let length = if is_block_format(dtype) {
                unpacked_length(raw.name, shape, dtype)
            } else {
                Ok(file_length)
            };
            match length {
                Err(error) => Err(error),
                Ok(declared_length) => match canonical_name(raw.name) {
                    Err(error) => Err(error),
                    Ok(name) => {
                        let location = TensorLocation {
                            file_offset,
                            file_length,
                            declared_length,
                            source: source_of(dtype),
                        };
                        let tensor = if is_block_format(dtype) {
                            TensorView {
                                name,
                                shape,
                                storage_dtype: ModelDType::F32,
                                size_bytes: Some(declared_length),
                                quantization: None,
                                digest: None,
                                ..raw
                            }
                        } else {
                            TensorView { name, shape, ..raw }
                        };
                        Ok((tensor, location))
                    },
                },
            }
        },
        _ => Err(malformed_view("tensor '"@ + raw.name + "' has no declared byte range"@)),
    }
}

/// Tensors and the locations of their bytes, by name.
pub type Inventory = (Seq<TensorView>, Map<Seq<char>, TensorLocation>);

/// What is discovered of tensors, in order, or why the first that is refused is.
pub open spec fn discovered(raw: Seq<TensorView>) -> Result<Inventory, ErrorView>
    decreases raw.len(),
{
    if raw.len() == 0 {
        Ok((Seq::empty(), Map::empty()))
    } else {
        match discovered(raw.drop_last()) {
            Err(error) => Err(error),
            Ok((tensors, locations)) => match discovered_tensor(raw.last()) {
                Err(error) => Err(error),
                Ok((tensor, location)) => Ok(
                    (tensors.push(tensor), locations.insert(tensor.name, location)),
                ),
            },
        }
    }
}

/// Bounded access to the bytes of a GGUF file's tensors. It holds none of them:
/// each is read when it is asked for.
#[derive(Debug)]
pub struct GgufPayloadSource {
    tensor_data_start: u64,
    locations: NameMap<TensorLocation>,
}

/// What a [`GgufPayloadSource`] knows of a file.
#[verifier::ext_equal]
pub struct PayloadSourceView {
    pub tensor_data_start: u64,
    pub locations: Map<Seq<char>, TensorLocation>,
}

impl View for GgufPayloadSource {
    type V = PayloadSourceView;

    closed spec fn view(&self) -> PayloadSourceView {
        PayloadSourceView {
            tensor_data_start: self.tensor_data_start,
            locations: self.locations@,
        }
    }
}

/// How the read of a payload begins: with opening the file, where the tensor is
/// known and the range is the one declared for it; refused otherwise.
pub open spec fn started(source: PayloadSourceView, range: RangeView) -> ReadView {
    let refused = ReadView::Finished(
        Err((IngestionErrorKind::PayloadOutOfBounds, range.identity)),
    );
    match source.locations.get(range.identity) {
        None => refused,
        Some(location) => if range.offset == location.file_offset && range.length
            == location.declared_length {
            ReadView::Open(
                RequestView {
                    identity: range.identity,
                    tensor_data_start: source.tensor_data_start,
                    location,
                    digest: range.digest,
                },
            )
        } else {
            refused
        },
    }
}

impl GgufPayloadSource {
    /// Begins to read the payload of `range`.
    pub fn read_payload(&self, range: &ProductionPayloadRange) -> (read: PayloadRead)
        ensures
            read@ == started(self@, range@),
    {
        match self.locations.get(range.identity.as_str()) {
            Some(location) => {
                if range.offset == location.file_offset && range.length
                    == location.declared_length {
                    return PayloadRead::Open(
                        PayloadRequest {
                            identity: range.identity.clone(),
                            tensor_data_start: self.tensor_data_start,
                            location: *location,
                            digest: match &range.digest {
                                Some(digest) => Some(digest.clone()),
                                None => None,
                            },
                        },
                    );
                }
            },
            None => {},
        }
        PayloadRead::Finished(
            Err(
                ProductionIngestionError::PayloadOutOfBounds { identity: range.identity.clone() },
            ),
        )
    }
}

fn element_count(shape: &Vec<u64>) -> (count: Result<u64, ProductionIngestionError>)
    ensures
        match counted(shape@) {
            Some(elements) => plain_outcome(count) == Ok::<u64, ErrorView>(elements),
            None => plain_outcome(count) == Err::<u64, ErrorView>(
                malformed_view("tensor element count overflowed"@),
            ),
        },
{
    let mut count: u64 = 1;
    let mut at: usize = 0;
    assert(shape@.take(0) =~= Seq::<u64>::empty());
    while at < shape.len()
        invariant
            at <= shape@.len(),
            counted(shape@.take(at as int)) == Some(count),
        decreases shape@.len() - at,
    {
        proof {
            assert(shape@.take(at + 1).drop_last() =~= shape@.take(at as int));
            assert(shape@.take(at + 1).last() == shape@[at as int]);
        }
        match count.checked_mul(shape[at]) {
            Some(product) => {
                count = product;
            },
            None => {
                proof {
                    lemma_count_overflows(shape@, at + 1);
                }
                return Err(malformed(String::from_str("tensor element count overflowed")));
            },
        }
        at += 1;
    }
    assert(shape@.take(at as int) =~= shape@);
    Ok(count)
}

/// Where a partial product overflows, the product is not counted.
proof fn lemma_count_overflows(shape: Seq<u64>, at: int)
    requires
        0 <= at <= shape.len(),
        counted(shape.take(at)) is None,
    ensures
        counted(shape) is None,
    decreases shape.len() - at,
{
    if at < shape.len() {
        assert(shape.take(at + 1).drop_last() =~= shape.take(at));
        lemma_count_overflows(shape, at + 1);
    } else {
        assert(shape.take(at) =~= shape);
    }
}

/// The numbers of a list, last first.
pub(crate) fn reversed(numbers: &Vec<u64>) -> (result: Vec<u64>)
    ensures
        result@ == numbers@.reverse(),
{
    let mut result: Vec<u64> = Vec::new();
    let mut left: usize = numbers.len();
    while left > 0
        invariant
            left <= numbers@.len(),
            result@ == numbers@.reverse().take(numbers@.len() - left),
        decreases left,
    {
        left -= 1;
        assert(numbers@.reverse().take(numbers@.len() - left) =~= numbers@.reverse().take(
            numbers@.len() - left - 1,
        ).push(numbers@[left as int]));
        result.push(numbers[left]);
    }
    assert(numbers@.reverse().take(numbers@.len() as int) =~= numbers@.reverse());
    result
}

fn read_unpacked_length(name: &str, shape: &Vec<u64>, dtype: ModelDType) -> (length: Result<
    u64,
    ProductionIngestionError,
>)
    requires
        is_block_format(dtype),
    ensures
        plain_outcome(length) == unpacked_length(name@, shape@, dtype),
{
    let elements: u64 = match element_count(shape) {
        Ok(elements) => elements,
        Err(error) => return Err(error),
    };
    let block: u64 = match dtype {
        ModelDType::Q8 => Q8_0_BLOCK_ELEMENTS,
        _ => QK_BLOCK_ELEMENTS,
    };
    if elements % block != 0 {
        let mut reason: String = String::from_str("tensor '");
        reason.append(name);
        reason.append("' element count ");
        reason.append(decimal(elements).as_str());
        reason.append(" is not a multiple of its quantization format's block size ");
        reason.append(decimal(block).as_str());
        return Err(malformed(reason));
    }
    match elements.checked_mul(4) {
        Some(bytes) => Ok(bytes),
        None => {
            let mut reason: String = String::from_str("tensor '");
            reason.append(name);
            reason.append("' dequantized byte size overflowed");
            Err(malformed(reason))
        },
    }
}

/// Discovers one tensor.
fn discover_tensor(raw: &ModelTensorMetadata) -> (found: Result<
    (ModelTensorMetadata, TensorLocation),
    ProductionIngestionError,
>)
    ensures
        match found {
            Ok((tensor, location)) => discovered_tensor(raw@) == Ok::<_, ErrorView>(
                (tensor@, location),
            ),
            Err(error) => discovered_tensor(raw@) == Err::<(TensorView, TensorLocation), _>(error@),
        },
{
    let (file_offset, file_length): (u64, u64) = match (raw.offset_bytes, raw.size_bytes) {
        (Some(offset), Some(length)) => (offset, length),
        _ => {
            let mut reason: String = String::from_str("tensor '");
            reason.append(raw.name.as_str());
            reason.append("' has no declared byte range");
            return Err(malformed(reason));
        },
    };
    let mut tensor: ModelTensorMetadata = raw.clone();
    tensor.shape = reversed(&raw.shape);
    let mut declared_length: u64 = file_length;
    let source: TensorSource = match raw.storage_dtype {
        ModelDType::Q8 => TensorSource::Q8_0,
        ModelDType::Q4K => TensorSource::Q4K,
        ModelDType::Q5K => TensorSource::Q5K,
        _ => TensorSource::Plain,
    };
    match source {
        TensorSource::Plain => {},
        _ => {
            declared_length =
            match read_unpacked_length(raw.name.as_str(), &tensor.shape, raw.storage_dtype) {
                Ok(length) => length,
                Err(error) => return Err(error),
            };
            tensor.storage_dtype = ModelDType::F32;
            tensor.size_bytes = Some(declared_length);
            tensor.quantization = None;
            tensor.digest = None;
        },
    }
    match normalize_tensor_name(raw.name.as_str()) {
        Ok(name) => {
            tensor.name = name;
        },
        Err(error) => return Err(error),
    }
    let location = TensorLocation { file_offset, file_length, declared_length, source };
    Ok((tensor, location))
}

/// What discovery gives: the tensors, access to their bytes, and the metadata of
/// the file.
pub type DiscoveredGgufWeights = (Vec<ModelTensorMetadata>, GgufPayloadSource, GgufMetadata);

/// Discovers the tensors of a bundle's file.
pub fn discover_and_parse_weights(load: ArtifactLoad) -> (weights: Result<
    DiscoveredGgufWeights,
    ProductionIngestionError,
>)
    ensures
        match (load, weights) {
            (ArtifactLoad::Parsed(artifact), Ok((tensors, source, metadata))) => {
                &&& discovered(tensor_views(artifact.tensors@)) == Ok::<_, ErrorView>(
                    (tensor_views(tensors@), source@.locations),
                )
                &&& source@.tensor_data_start == artifact.tensor_data_start
                &&& metadata == artifact.metadata
            },
            (ArtifactLoad::Parsed(artifact), Err(error)) => discovered(
                tensor_views(artifact.tensors@),
            ) == Err::<Inventory, _>(error@),
            (_, Ok(_)) => false,
            (_, Err(error)) => load_defect(load) == Some(error@),
        },
{
    let artifact: GgufArtifact = match loaded_artifact(load) {
        Ok(artifact) => artifact,
        Err(error) => return Err(error),
    };
    let ghost raw = tensor_views(artifact.tensors@);
    let mut locations: NameMap<TensorLocation> = NameMap::new();
    let mut tensors: Vec<ModelTensorMetadata> = Vec::new();
    let mut at: usize = 0;
    proof {
        assert(raw.take(0) =~= Seq::<TensorView>::empty());
        assert(tensor_views(tensors@) =~= Seq::<TensorView>::empty());
    }
    while at < artifact.tensors.len()
        invariant
            load == ArtifactLoad::Parsed(artifact),
            at <= artifact.tensors@.len(),
            raw == tensor_views(artifact.tensors@),
            discovered(raw.take(at as int)) == Ok::<_, ErrorView>(
                (tensor_views(tensors@), locations@),
            ),
        decreases artifact.tensors@.len() - at,
    {
        let ghost before = tensors@;
        proof {
            assert(raw.take(at + 1).drop_last() =~= raw.take(at as int));
            assert(raw.take(at + 1).last() == artifact.tensors@[at as int]@);
        }
        match discover_tensor(&artifact.tensors[at]) {
            Ok((tensor, location)) => {
                locations.insert(tensor.name.clone(), location);
                tensors.push(tensor);
                assert(tensor_views(tensors@) =~= tensor_views(before).push(tensor@));
            },
            Err(error) => {
                proof {
                    lemma_discovery_fails(raw, at + 1);
                }
                return Err(error);
            },
        }
        at += 1;
    }
    assert(raw.take(at as int) =~= raw);
    let source = GgufPayloadSource { tensor_data_start: artifact.tensor_data_start, locations };
    Ok((tensors, source, artifact.metadata))
}

/// What refuses a first part of the tensors refuses them all.
proof fn lemma_discovery_fails(raw: Seq<TensorView>, at: int)
    requires
        0 <= at <= raw.len(),
        discovered(raw.take(at)) is Err,
    ensures
        discovered(raw) == discovered(raw.take(at)),
    decreases raw.len() - at,
{
    if at < raw.len() {
        assert(raw.take(at + 1).drop_last() =~= raw.take(at));
        lemma_discovery_fails(raw, at + 1);
    } else {
        assert(raw.take(at) =~= raw);
    }
}

/// The number of elements of a shape.
pub open spec fn element_product(shape: Seq<u64>) -> nat
    decreases shape.len(),
{
    if shape.len() == 0 {
        1
    } else {
        element_product(shape.drop_last()) * shape.last() as nat
    }
}

/// Where elements are counted, they are all counted; where no dimension is zero, they are
/// counted exactly where their number fits.
pub proof fn counting_is_exact(shape: Seq<u64>)
    ensures
        counted(shape) matches Some(count) ==> count == element_product(shape),
        (forall|i: int| 0 <= i < shape.len() ==> #[trigger] shape[i] != 0) ==> (counted(shape)
            is Some <==> element_product(shape) <= u64::MAX),
    decreases shape.len(),
{
    if shape.len() > 0 {
        let shorter = shape.drop_last();
        counting_is_exact(shorter);
        if forall|i: int| 0 <= i < shape.len() ==> #[trigger] shape[i] != 0 {
            assert forall|i: int| 0 <= i < shorter.len() implies #[trigger] shorter[i] != 0 by {
                assert(shorter[i] == shape[i]);
            }
            let last = shape.last() as nat;
            assert(shape[shape.len() - 1] != 0);
            assert(element_product(shorter) <= element_product(shorter) * last) by (nonlinear_arith)
                requires
                    last >= 1,
            ;
        }
    }
}

/// Counting stops at the first product that is too large, even where a dimension after it is
/// zero: the elements are counted exactly where no product of the first dimensions is.
pub proof fn counting_stops_at_overflow(shape: Seq<u64>)
    ensures
        counted(shape) is Some <==> forall|first: int|
            0 <= first <= shape.len() ==> element_product(#[trigger] shape.take(first))
                <= u64::MAX,
    decreases shape.len(),
{
    let all = shape.take(shape.len() as int);
    assert(all =~= shape);
    counting_is_exact(shape);
    if shape.len() > 0 {
        let shorter = shape.drop_last();
        counting_stops_at_overflow(shorter);
        counting_is_exact(shorter);
        assert forall|first: int| 0 <= first <= shorter.len() implies #[trigger] shorter.take(first)
            == shape.take(first) by {
            assert(shorter.take(first) =~= shape.take(first));
        }
        if forall|first: int|
            0 <= first <= shape.len() ==> element_product(#[trigger] shape.take(first))
                <= u64::MAX {
            assert forall|first: int| 0 <= first <= shorter.len() implies element_product(
                #[trigger] shorter.take(first),
            ) <= u64::MAX by {
                assert(shorter.take(first) == shape.take(first));
            }
            assert(element_product(all) <= u64::MAX);
        }
        if counted(shape) is Some {
            assert forall|first: int| 0 <= first <= shape.len() implies element_product(
                #[trigger] shape.take(first),
            ) <= u64::MAX by {
                if first < shape.len() {
                    assert(shorter.take(first) == shape.take(first));
                }
            }
        }
    } else {
        assert forall|first: int| 0 <= first <= shape.len() implies element_product(
            #[trigger] shape.take(first),
        ) <= u64::MAX by {
            assert(shape.take(first) =~= Seq::<u64>::empty());
        }
    }
}

proof fn lemma_product_of_parts(first: Seq<u64>, second: Seq<u64>)
    ensures
        element_product(first + second) == element_product(first) * element_product(second),
    decreases second.len(),
{
    if second.len() == 0 {
        assert(first + second =~= first);
        assert(element_product(first) * 1 == element_product(first)) by (nonlinear_arith);
    } else {
        let shorter = second.drop_last();
        lemma_product_of_parts(first, shorter);
        assert((first + second).drop_last() =~= first + shorter);
        assert((first + second).last() == second.last());
        let a = element_product(first);
        let b = element_product(shorter);
        let c = second.last() as nat;
        assert(a * b * c == a * (b * c)) by (nonlinear_arith);
    }
}

/// Reversing a shape relabels its dimensions and keeps the number of its elements; a shape
/// of one dimension stays as it is, and reversing twice gives the shape back.
pub proof fn reversal_keeps_elements(shape: Seq<u64>)
    ensures
        element_product(shape.reverse()) == element_product(shape),
        shape.len() <= 1 ==> shape.reverse() == shape,
        shape.reverse().reverse() == shape,
    decreases shape.len(),
{
    assert(shape.reverse().reverse() =~= shape);
    if shape.len() <= 1 {
        assert(shape.reverse() =~= shape);
    } else {
        let shorter = shape.drop_last();
        let last = seq![shape.last()];
        reversal_keeps_elements(shorter);
        assert(shape.reverse() =~= last + shorter.reverse());
        lemma_product_of_parts(last, shorter.reverse());
        assert(last.drop_last() =~= Seq::<u64>::empty());
        assert(element_product(last) == shape.last()) by {
            assert(element_product(last.drop_last()) == 1);
        }
        let a = element_product(shorter);
        let b = shape.last() as nat;
        assert(a * b == b * a) by (nonlinear_arith);
    }
}

/// The location that is discovered for a tensor.
pub open spec fn location_of(raw: TensorView) -> TensorLocation {
    discovered_tensor(raw)->Ok_0.1
}

/// What discovery makes of each tensor: none is lost or added, each has its canonical name
/// and its reversed shape, and none is left in a block format.
pub proof fn discovery_describes_every_tensor(raw: Seq<TensorView>)
    ensures
        discovered(raw) matches Ok((tensors, locations)) ==> {
            &&& tensors.len() == raw.len()
            &&& forall|at: int|
                0 <= at < raw.len() ==> {
                    &&& discovered_tensor(raw[at]) == Ok::<_, ErrorView>(
                        (#[trigger] tensors[at], location_of(raw[at])),
                    )
                    &&& canonical_name(raw[at].name) == Ok::<_, ErrorView>(tensors[at].name)
                    &&& tensors[at].shape == raw[at].shape.reverse()
                    &&& !is_block_format(tensors[at].storage_dtype)
                    &&& is_block_format(raw[at].storage_dtype) ==> tensors[at].storage_dtype
                        == ModelDType::F32 && tensors[at].quantization is None
                }
        },
    decreases raw.len(),
{
    if raw.len() > 0 && discovered(raw) is Ok {
        let shorter = raw.drop_last();
        discovery_describes_every_tensor(shorter);
        let tensors = discovered(raw)->Ok_0.0;
        let before = discovered(shorter)->Ok_0.0;
        assert forall|at: int| 0 <= at < raw.len() implies discovered_tensor(raw[at]) == Ok::<
            _,
            ErrorView,
        >((#[trigger] tensors[at], location_of(raw[at]))) by {
            if at < shorter.len() {
                assert(tensors[at] == before[at]);
                assert(shorter[at] == raw[at]);
            }
        }
    }
}

/// Whether no two tensors have the same name.
pub open spec fn names_differ(tensors: Seq<TensorView>) -> bool {
    forall|i: int, j: int|
        0 <= i < j < tensors.len() ==> (#[trigger] tensors[i]).name != (#[trigger] tensors[j]).name
}

/// In a file whose tensors have different names, every tensor that is discovered is found
/// again under its canonical name, at its own location.
pub proof fn discovered_tensors_are_located(raw: Seq<TensorView>, at: int)
    requires
        names_differ(raw),
        discovered(raw) is Ok,
        0 <= at < raw.len(),
    ensures
        discovered(raw) matches Ok((tensors, locations)) ==> locations.contains_key(
            tensors[at].name,
        ) && locations[tensors[at].name] == location_of(raw[at]),
    decreases raw.len(),
{
    discovery_describes_every_tensor(raw);
    let shorter = raw.drop_last();
    let (tensors, locations) = discovered(raw)->Ok_0;
    let last = raw.len() - 1;
    if at < last {
        assert forall|i: int, j: int| 0 <= i < j < shorter.len() implies (
        #[trigger] shorter[i]).name != (#[trigger] shorter[j]).name by {
            assert(shorter[i] == raw[i] && shorter[j] == raw[j]);
        }
        discovered_tensors_are_located(shorter, at);
        let before = discovered(shorter)->Ok_0.0;
        assert(tensors[at] == before[at]);
        if tensors[at].name == tensors[last].name {
            canonical_names_are_distinct(raw[at].name, raw[last].name);
        }
        assert(raw[at].name != raw[last].name);
    }
}

/// In a file whose tensors have different names, a read that asks for a discovered tensor by
/// the place and the size that were declared for it is taken up.
pub proof fn declared_ranges_are_accepted(
    raw: Seq<TensorView>,
    tensor_data_start: u64,
    at: int,
    digest: Option<DigestView>,
)
    requires
        names_differ(raw),
        discovered(raw) is Ok,
        0 <= at < raw.len(),
    ensures
        discovered(raw) matches Ok((tensors, locations)) ==> {
            &&& tensors[at].offset_bytes is Some
            &&& tensors[at].size_bytes is Some
            &&& started(
                PayloadSourceView { tensor_data_start, locations },
                RangeView {
                    identity: tensors[at].name,
                    offset: tensors[at].offset_bytes.unwrap(),
                    length: tensors[at].size_bytes.unwrap(),
                    digest,
                },
            ) == ReadView::Open(
                RequestView {
                    identity: tensors[at].name,
                    tensor_data_start,
                    location: location_of(raw[at]),
                    digest,
                },
            )
        },
{
    discovery_describes_every_tensor(raw);
    discovered_tensors_are_located(raw, at);
    let tensors = discovered(raw)->Ok_0.0;
    assert(discovered_tensor(raw[at]) == Ok::<_, ErrorView>((tensors[at], location_of(raw[at]))));
}

/// A read that is not the one declared for a known tensor is refused, whatever is asked
/// for.
pub proof fn other_ranges_are_refused(source: PayloadSourceView, range: RangeView)
    requires
        source.locations.get(range.identity) matches Some(location) ==> range.offset
            != location.file_offset || range.length != location.declared_length,
    ensures
        started(source, range) == ReadView::Finished(
            Err((IngestionErrorKind::PayloadOutOfBounds, range.identity)),
        ),
{
}

/// What is handed out for a tensor is as long as was declared, where the file holds as many
/// bytes as it says: all of a plain tensor's, or whole blocks for all elements.
pub proof fn delivered_payloads_have_declared_length(tensor: TensorView, stored: Seq<u8>)
    requires
        discovered_tensor(tensor) is Ok,
        stored.len() == location_of(tensor).file_length,
        tensor.storage_dtype == ModelDType::Q8 ==> stored.len() == counted(
            tensor.shape.reverse(),
        ).unwrap() as nat / Q8_0_BLOCK_ELEMENTS as nat * Q8_0_BLOCK_BYTES,
        tensor.storage_dtype == ModelDType::Q4K ==> stored.len() == counted(
            tensor.shape.reverse(),
        ).unwrap() as nat / QK_BLOCK_ELEMENTS as nat * Q4_K_BLOCK_BYTES,
        tensor.storage_dtype == ModelDType::Q5K ==> stored.len() == counted(
            tensor.shape.reverse(),
        ).unwrap() as nat / QK_BLOCK_ELEMENTS as nat * Q5_K_BLOCK_BYTES,
    ensures
        delivered(location_of(tensor).source, stored).len() == location_of(tensor).declared_length,
{
    if is_block_format(tensor.storage_dtype) {
        whole_blocks_keep_their_elements(stored, counted(tensor.shape.reverse()).unwrap() as nat);
    }
}

} // verus!
