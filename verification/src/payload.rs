//! The reading of one payload, step by step.
//!
//! A [`PayloadRead`] says what is to be done next: open the file, seek, load
//! bytes, have them checked against a digest. Whoever does it answers with a
//! [`PayloadEvent`], and [`PayloadRead::advance`] decides what follows, until the
//! read is finished with the bytes or with an error.

use vstd::prelude::*;
use vstd::string::StringExecFns;

use crate::dequantize::{dequantize_q4_k, dequantize_q5_k, dequantize_q8_0};
use crate::dequantize::{q4_k_values, q5_k_values, q8_0_values};
use crate::error::{ErrorView, IngestionErrorKind, ProductionIngestionError};
use crate::model::{digest_view, DigestView, ModelDigest};
use crate::weights::{TensorLocation, TensorSource};

verus! {

/// Byte `index` of a 32-bit pattern stored little-endian.
pub open spec fn stored_byte(bits: u32, index: int) -> u8 {
    if index == 0 {
        (bits % 256) as u8
    } else if index == 1 {
        (bits / 0x100 % 256) as u8
    } else if index == 2 {
        (bits / 0x1_0000 % 256) as u8
    } else {
        (bits / 0x100_0000) as u8
    }
}

/// 32-bit patterns stored little-endian, one after another.
pub open spec fn stored(values: Seq<u32>) -> Seq<u8> {
    Seq::new(values.len() * 4, |at: int| stored_byte(values[at / 4], at % 4))
}

/// What is handed out for the bytes of a tensor: the bytes themselves, or the
/// numbers unpacked from them.
pub open spec fn delivered(source: TensorSource, raw: Seq<u8>) -> Seq<u8> {
    match source {
        TensorSource::Plain => raw,
        TensorSource::Q8_0 => stored(q8_0_values(raw)),
        TensorSource::Q4K => stored(q4_k_values(raw)),
        TensorSource::Q5K => stored(q5_k_values(raw)),
    }
}

/// A payload that was asked for and found.
#[derive(Debug)]
pub struct PayloadRequest {
    pub identity: String,
    pub tensor_data_start: u64,
    pub location: TensorLocation,
    pub digest: Option<ModelDigest>,
}

/// What a [`PayloadRequest`] says.
#[verifier::ext_equal]
pub struct RequestView {
    pub identity: Seq<char>,
    pub tensor_data_start: u64,
    pub location: TensorLocation,
    pub digest: Option<DigestView>,
}

impl View for PayloadRequest {
    type V = RequestView;

    open spec fn view(&self) -> RequestView {
        RequestView {
            identity: self.identity@,
            tensor_data_start: self.tensor_data_start,
            location: self.location,
            digest: digest_view(self.digest),
        }
    }
}

/// How far the read of a payload has come, and what is to be done next.
#[derive(Debug)]
pub enum PayloadRead {
    /// The file is to be opened.
    Open(PayloadRequest),
    /// The open file is to be positioned `start` bytes in.
    Seek { request: PayloadRequest, start: u64 },
    /// Exactly `length` bytes are to be loaded.
    Load { request: PayloadRequest, length: usize },
    /// The loaded bytes are to be checked against the digest of the request.
    Verify { request: PayloadRequest, raw: Vec<u8> },
    /// Nothing is left to do.
    Finished(Result<Vec<u8>, ProductionIngestionError>),
}

/// What a [`PayloadRead`] says.
pub enum ReadView {
    Open(RequestView),
    Seek { request: RequestView, start: u64 },
    Load { request: RequestView, length: usize },
    Verify { request: RequestView, raw: Seq<u8> },
    Finished(Result<Seq<u8>, ErrorView>),
}

impl View for PayloadRead {
    type V = ReadView;

    open spec fn view(&self) -> ReadView {
        match self {
            PayloadRead::Open(request) => ReadView::Open(request@),
            PayloadRead::Seek { request, start } => ReadView::Seek {
                request: request@,
                start: *start,
            },
            PayloadRead::Load { request, length } => ReadView::Load {
                request: request@,
                length: *length,
            },
            PayloadRead::Verify { request, raw } => ReadView::Verify {
                request: request@,
                raw: raw@,
            },
            PayloadRead::Finished(Ok(bytes)) => ReadView::Finished(Ok(bytes@)),
            PayloadRead::Finished(Err(error)) => ReadView::Finished(Err(error@)),
        }
    }
}

/// What came of the step that a [`PayloadRead`] asked for.
#[derive(Debug)]
pub enum PayloadEvent {
    /// It was done.
    Done,
    /// The bytes were loaded.
    Loaded(Vec<u8>),
    /// It failed, with this text.
    Failed(String),
}

/// What a [`PayloadEvent`] says.
pub enum EventView {
    Done,
    Loaded(Seq<u8>),
    Failed(Seq<char>),
}

impl View for PayloadEvent {
    type V = EventView;

    open spec fn view(&self) -> EventView {
        match self {
            PayloadEvent::Done => EventView::Done,
            PayloadEvent::Loaded(raw) => EventView::Loaded(raw@),
            PayloadEvent::Failed(error) => EventView::Failed(error@),
        }
    }
}

/// The end of a read that failed for a reason of its own.
pub open spec fn failed(
    kind: IngestionErrorKind,
    request: RequestView,
    error: Seq<char>,
) -> ReadView {
    ReadView::Finished(Err((kind, request.identity + ": "@ + error)))
}

/// The end of a read whose place no file can have.
pub open spec fn out_of_bounds(request: RequestView) -> ReadView {
    ReadView::Finished(Err((IngestionErrorKind::PayloadOutOfBounds, request.identity)))
}

/// What follows an event. A step that failed ends the read; one that was done leads
/// to the next; a digest is checked on the bytes as they stand in the file, before
/// they are unpacked. An event that does not answer the step changes nothing.
pub open spec fn following(read: ReadView, event: EventView) -> ReadView {
    match (read, event) {
        (ReadView::Open(request), EventView::Failed(error)) => failed(
            IngestionErrorKind::PayloadUnavailable,
            request,
            error,
        ),
        (ReadView::Open(request), EventView::Done) => {
            let start = request.tensor_data_start + request.location.file_offset;
            if start <= u64::MAX {
                ReadView::Seek { request, start: start as u64 }
            } else {
                out_of_bounds(request)
            }
        },
        (ReadView::Seek { request, .. }, EventView::Failed(error)) => failed(
            IngestionErrorKind::PayloadUnavailable,
            request,
            error,
        ),
        (ReadView::Seek { request, .. }, EventView::Done) => if request.location.file_length
            <= usize::MAX {
            ReadView::Load { request, length: request.location.file_length as usize }
        } else {
            out_of_bounds(request)
        },
        (ReadView::Load { request, .. }, EventView::Failed(error)) => failed(
            IngestionErrorKind::PayloadUnavailable,
            request,
            error,
        ),
        (ReadView::Load { request, .. }, EventView::Loaded(raw)) => if request.digest is Some {
            ReadView::Verify { request, raw }
        } else {
            ReadView::Finished(Ok(delivered(request.location.source, raw)))
        },
        (ReadView::Verify { request, .. }, EventView::Failed(error)) => failed(
            IngestionErrorKind::IntegrityMismatch,
            request,
            error,
        ),
        (ReadView::Verify { request, raw }, EventView::Done) => ReadView::Finished(
            Ok(delivered(request.location.source, raw)),
        ),
        (read, _) => read,
    }
}

/// Stores 32-bit patterns little-endian, one after another.
pub fn f32_le_bytes(values: &Vec<u32>) -> (bytes: Vec<u8>)
    ensures
        bytes@ == stored(values@),
{
    let mut bytes: Vec<u8> = Vec::new();
    let mut at: usize = 0;
    while at < values.len()
        invariant
            at <= values@.len(),
            bytes@ == stored(values@.take(at as int)),
        decreases values@.len() - at,
    {
        let bits: u32 = values[at];
        let ghost before = bytes@;
        bytes.push((bits % 256) as u8);
        bytes.push((bits / 0x100 % 256) as u8);
        bytes.push((bits / 0x1_0000 % 256) as u8);
        bytes.push((bits / 0x100_0000) as u8);
        proof {
            let longer = values@.take(at + 1);
            let shorter = values@.take(at as int);
            assert forall|i: int| 0 <= i < bytes@.len() implies bytes@[i] == stored(longer)[i] by {
                if i < before.len() {
                    assert(longer[i / 4] == shorter[i / 4]);
                } else {
                    assert(i / 4 == at);
                }
            }
            assert(bytes@ =~= stored(longer));
        }
        at += 1;
    }
    assert(values@.take(at as int) =~= values@);
    bytes
}

fn deliver(source: TensorSource, raw: Vec<u8>) -> (bytes: Vec<u8>)
    ensures
        bytes@ == delivered(source, raw@),
{
    match source {
        TensorSource::Plain => raw,
        TensorSource::Q8_0 => f32_le_bytes(&dequantize_q8_0(raw.as_slice())),
        TensorSource::Q4K => f32_le_bytes(&dequantize_q4_k(raw.as_slice())),
        TensorSource::Q5K => f32_le_bytes(&dequantize_q5_k(raw.as_slice())),
    }
}

fn cite(request: PayloadRequest, error: String) -> (text: String)
    ensures
        text@ == request@.identity + ": "@ + error@,
{
    let mut text: String = request.identity;
    text.append(": ");
    text.append(error.as_str());
    text
}

fn unavailable(request: PayloadRequest, error: String) -> (read: PayloadRead)
    ensures
        read@ == failed(IngestionErrorKind::PayloadUnavailable, request@, error@),
{
    PayloadRead::Finished(
        Err(ProductionIngestionError::PayloadUnavailable { identity: cite(request, error) }),
    )
}

impl PayloadRead {
    /// Takes the read one step further.
    pub fn advance(self, event: PayloadEvent) -> (next: PayloadRead)
        ensures
            next@ == following(self@, event@),
    {
        match (self, event) {
            (PayloadRead::Open(request), PayloadEvent::Failed(error)) => unavailable(
                request,
                error,
            ),
            (PayloadRead::Open(request), PayloadEvent::Done) => {
                match request.tensor_data_start.checked_add(request.location.file_offset) {
                    Some(start) => PayloadRead::Seek { request, start },
                    None => PayloadRead::Finished(
                        Err(
                            ProductionIngestionError::PayloadOutOfBounds {
                                identity: request.identity,
                            },
                        ),
                    ),
                }
            },
            (PayloadRead::Seek { request, .. }, PayloadEvent::Failed(error)) => unavailable(
                request,
                error,
            ),
            (PayloadRead::Seek { request, .. }, PayloadEvent::Done) => {
                if request.location.file_length <= usize::MAX as u64 {
                    let length: usize = request.location.file_length as usize;
                    PayloadRead::Load { request, length }
                } else {
                    PayloadRead::Finished(
                        Err(
                            ProductionIngestionError::PayloadOutOfBounds {
                                identity: request.identity,
                            },
                        ),
                    )
                }
            },
            (PayloadRead::Load { request, .. }, PayloadEvent::Failed(error)) => unavailable(
                request,
                error,
            ),
            (PayloadRead::Load { request, .. }, PayloadEvent::Loaded(raw)) => {
                if request.digest.is_some() {
                    PayloadRead::Verify { request, raw }
                } else {
                    PayloadRead::Finished(Ok(deliver(request.location.source, raw)))
                }
            },
            (PayloadRead::Verify { request, .. }, PayloadEvent::Failed(error)) => {
                PayloadRead::Finished(
                    Err(
                        ProductionIngestionError::IntegrityMismatch {
                            identity: cite(request, error),
                        },
                    ),
                )
            },
            (PayloadRead::Verify { request, raw }, PayloadEvent::Done) => {
                PayloadRead::Finished(Ok(deliver(request.location.source, raw)))
            },
            (read, _) => read,
        }
    }
}

/// A read in which every step succeeds opens the file, seeks to the tensor, loads exactly
/// its bytes and hands out what they amount to.
pub proof fn undisturbed_reads_deliver(request: RequestView, raw: Seq<u8>)
    requires
        request.tensor_data_start + request.location.file_offset <= u64::MAX,
        request.location.file_length <= usize::MAX,
        request.digest is None,
    ensures
        ({
            let seek = following(ReadView::Open(request), EventView::Done);
            let load = following(seek, EventView::Done);
            &&& seek == (ReadView::Seek {
                request,
                start: (request.tensor_data_start + request.location.file_offset) as u64,
            })
            &&& load == (ReadView::Load { request, length: request.location.file_length as usize })
            &&& following(load, EventView::Loaded(raw)) == ReadView::Finished(
                Ok(delivered(request.location.source, raw)),
            )
        }),
{
}

/// Where a digest is declared, nothing is handed out before the bytes were checked against
/// it, and the bytes that are checked are those of the file, before anything is unpacked.
pub proof fn digests_are_checked_on_stored_bytes(
    request: RequestView,
    length: usize,
    raw: Seq<u8>,
    error: Seq<char>,
)
    requires
        request.digest is Some,
    ensures
        following(ReadView::Load { request, length }, EventView::Loaded(raw)) == (
        ReadView::Verify { request, raw }),
        following(ReadView::Verify { request, raw }, EventView::Done) == ReadView::Finished(
            Ok(delivered(request.location.source, raw)),
        ),
        following(ReadView::Verify { request, raw }, EventView::Failed(error)) == failed(
            IngestionErrorKind::IntegrityMismatch,
            request,
            error,
        ),
{
}

/// A step that fails ends the read with an error, and a read that has ended stays as it is.
pub proof fn failures_end_the_read(read: ReadView, error: Seq<char>, event: EventView)
    ensures
        following(read, EventView::Failed(error)) matches ReadView::Finished(result) && (
        read is Finished || result is Err),
        read is Finished ==> following(read, event) == read,
{
}

} // verus!
