//! Frames in the form the bus driver has them. The driver's own accessors
//! read them and its own constructors build them. What is proved here is
//! which record a driver frame becomes, that a validated outbound frame
//! always gets through the constructors, and what the built frame holds.

use vstd::prelude::*;
use socketcan::{CanFrame, CanId, EmbeddedFrame, Frame, Id};
use crate::message::{
    normalize, rejection, CanMessage, InvalidFrame, MessageView, RawFrame, MAX_PAYLOAD,
};
use crate::outbound::{outbound_rejection, prepare_outbound, OutboundFrame, OutboundView, SendRequest};

verus! {

/// The driver's identifier type, `socketcan::CanId`; its contents are not
/// looked into here.
#[verifier::external_type_specification]
#[verifier::external_body]
pub struct ExCanId(CanId);

/// The driver's classic frame type, `socketcan::CanFrame`; its contents
/// are not looked into here.
#[verifier::external_type_specification]
#[verifier::external_body]
pub struct ExCanFrame(CanFrame);

/// The raw identifier that `id` gives for a `socketcan::CanFrame`.
pub uninterp spec fn frame_identifier(frame: CanFrame) -> u32;

/// The bytes that `data` gives for a `socketcan::CanFrame`.
pub uninterp spec fn frame_payload(frame: CanFrame) -> Seq<u8>;

/// The length that `dlc` gives for a `socketcan::CanFrame`.
pub uninterp spec fn frame_dlc(frame: CanFrame) -> usize;

/// What `is_extended` says of a `socketcan::CanFrame`.
pub uninterp spec fn frame_is_extended(frame: CanFrame) -> bool;

/// What `is_error_frame` says of a `socketcan::CanFrame`.
pub uninterp spec fn frame_is_error(frame: CanFrame) -> bool;

/// What `is_remote_frame` says of a `socketcan::CanFrame`.
pub uninterp spec fn frame_is_remote(frame: CanFrame) -> bool;

/// The raw number that `as_raw` gives for a `socketcan::CanId`.
pub uninterp spec fn can_id_raw(id: CanId) -> u32;

/// What `is_extended` says of a `socketcan::CanId`.
pub uninterp spec fn can_id_is_extended(id: CanId) -> bool;

/// What `socketcan::CanId::standard` returns for `raw`.
pub uninterp spec fn standard_can_id(raw: u16) -> Option<CanId>;

/// What `socketcan::CanId::extended` returns for `raw`.
pub uninterp spec fn extended_can_id(raw: u32) -> Option<CanId>;

/// What `new` of `socketcan::CanFrame` returns for `id` and the bytes
/// `data`.
pub uninterp spec fn classic_data_frame(id: CanId, data: Seq<u8>) -> Option<CanFrame>;

/// What `new_remote` of `socketcan::CanFrame` returns for `id` and the
/// requested length `dlc`.
pub uninterp spec fn classic_remote_frame(id: CanId, dlc: usize) -> Option<CanFrame>;

/// What the driver's accessors read back from a frame that one of its
/// constructors built from `id`: the identifier and its addressing mode,
/// the kind of frame, the length and the bytes; never an error frame.
pub open spec fn carries(
    frame: CanFrame,
    id: CanId,
    is_remote: bool,
    dlc: usize,
    payload: Seq<u8>,
) -> bool {
    &&& frame_identifier(frame) == can_id_raw(id)
    &&& frame_is_extended(frame) == can_id_is_extended(id)
    &&& frame_is_remote(frame) == is_remote
    &&& !frame_is_error(frame)
    &&& frame_dlc(frame) == dlc
    &&& frame_payload(frame) == payload
}

/// Calls `id` of `socketcan::CanFrame` (from `embedded_can::Frame`) and
/// takes the raw number out of either kind of identifier.
///
/// Assumed, not proved: the number depends on the frame alone.
#[verifier::external_body]
fn identifier_of(frame: &CanFrame) -> (r: u32)
    ensures
        r == frame_identifier(*frame),
{
    match frame.id() {
        Id::Standard(id) => id.as_raw().into(),
        Id::Extended(id) => id.as_raw(),
    }
}

/// Calls `dlc` of `socketcan::CanFrame` (from `embedded_can::Frame`).
///
/// Assumed, not proved: the length depends on the frame alone.
#[verifier::external_body]
fn dlc_of(frame: &CanFrame) -> (r: usize)
    ensures
        r == frame_dlc(*frame),
{
    frame.dlc()
}

/// Calls `data` of `socketcan::CanFrame` (from `embedded_can::Frame`) and
/// copies the bytes. A data frame cuts its eight bytes at its own length,
/// so the call is made only on a frame whose length is no more than eight.
///
/// Assumed, not proved: the bytes depend on the frame alone.
#[verifier::external_body]
fn payload_of(frame: &CanFrame) -> (r: Vec<u8>)
    requires
        frame_dlc(*frame) <= 8,
    ensures
        r@ == frame_payload(*frame),
{
    frame.data().to_vec()
}

/// Calls `is_extended` of `socketcan::CanFrame` (from
/// `embedded_can::Frame`).
///
/// Assumed, not proved: the answer depends on the frame alone.
#[verifier::external_body]
fn extended_flag_of(frame: &CanFrame) -> (r: bool)
    ensures
        r == frame_is_extended(*frame),
{
    frame.is_extended()
}

/// Calls `is_error_frame` of `socketcan::CanFrame` (from
/// `socketcan::Frame`).
///
/// Assumed, not proved: the answer depends on the frame alone.
#[verifier::external_body]
fn error_flag_of(frame: &CanFrame) -> (r: bool)
    ensures
        r == frame_is_error(*frame),
{
    frame.is_error_frame()
}

/// Calls `is_remote_frame` of `socketcan::CanFrame` (from
/// `embedded_can::Frame`).
///
/// Assumed, not proved: the answer depends on the frame alone.
#[verifier::external_body]
fn remote_flag_of(frame: &CanFrame) -> (r: bool)
    ensures
        r == frame_is_remote(*frame),
{
    frame.is_remote_frame()
}

/// Calls `socketcan::CanId::standard`.
///
/// Assumed, not proved: the result depends on `raw` alone; there is one
/// exactly when `raw` fits 11 bits, and it is a standard identifier whose
/// raw number is `raw`.
#[verifier::external_body]
fn can_id_standard(raw: u16) -> (r: Option<CanId>)
    ensures
        r == standard_can_id(raw),
        r is Some <==> raw <= 0x7FF,
        r matches Some(id) ==> can_id_raw(id) == raw && !can_id_is_extended(id),
{
    CanId::standard(raw)
}

/// Calls `socketcan::CanId::extended`.
///
/// Assumed, not proved: the result depends on `raw` alone; there is one
/// exactly when `raw` fits 29 bits, and it is an extended identifier whose
/// raw number is `raw`.
#[verifier::external_body]
fn can_id_extended(raw: u32) -> (r: Option<CanId>)
    ensures
        r == extended_can_id(raw),
        r is Some <==> raw <= 0x1FFF_FFFF,
        r matches Some(id) ==> can_id_raw(id) == raw && can_id_is_extended(id),
{
    CanId::extended(raw)
}

/// Calls `new` of `socketcan::CanFrame` (from `embedded_can::Frame`).
///
/// Assumed, not proved: the result depends on the identifier and the
/// bytes alone; there is one exactly when there are no more than eight
/// bytes, and it is a data frame that reads back as that identifier and
/// those bytes.
#[verifier::external_body]
fn new_data_frame(id: CanId, data: &[u8]) -> (r: Option<CanFrame>)
    ensures
        r == classic_data_frame(id, data@),
        r is Some <==> data@.len() <= 8,
        r matches Some(frame) ==> carries(frame, id, false, data@.len() as usize, data@),
{
    CanFrame::new(id, data)
}

/// Calls `new_remote` of `socketcan::CanFrame` (from
/// `embedded_can::Frame`).
///
/// Assumed, not proved: the result depends on the identifier and the
/// requested length alone; there is one exactly when the length is no
/// more than eight, and it is a remote frame that reads back as that
/// identifier and that length, and holds no bytes.
#[verifier::external_body]
fn new_remote_frame(id: CanId, dlc: usize) -> (r: Option<CanFrame>)
    ensures
        r == classic_remote_frame(id, dlc),
        r is Some <==> dlc <= 8,
        r matches Some(frame) ==> carries(frame, id, true, dlc, Seq::empty()),
{
    CanFrame::new_remote(id, dlc)
}

/// The data of a remote request for `len` bytes: as many zero bytes.
pub open spec fn requested(len: usize) -> Seq<u8> {
    Seq::new(len as nat, |i: int| 0u8)
}

/// What a driver frame says, field by field. A remote frame holds no
/// bytes; its data stands for the length it asks for.
pub open spec fn frame_view(frame: CanFrame) -> MessageView {
    MessageView {
        id: frame_identifier(frame),
        data: if frame_is_remote(frame) {
            requested(frame_dlc(frame))
        } else {
            frame_payload(frame)
        },
        is_extended: frame_is_extended(frame),
        is_error: frame_is_error(frame),
        is_rtr: frame_is_remote(frame),
    }
}

/// The reason for which a driver frame gives no record, if it gives none:
/// its length is beyond a classic frame, or the codec refuses what it
/// says.
pub open spec fn frame_rejection(frame: CanFrame) -> Option<InvalidFrame> {
    if frame_dlc(frame) > MAX_PAYLOAD {
        Some(InvalidFrame::PayloadTooLong)
    } else {
        rejection(frame_view(frame))
    }
}

/// As many zero bytes as a remote request asks for.
fn zeros(len: usize) -> (bytes: Vec<u8>)
    ensures
        bytes@ == requested(len),
{
    let mut bytes: Vec<u8> = Vec::new();
    let mut i: usize = 0;
    while i < len
        invariant
            i <= len,
            bytes@ == requested(i),
        decreases len - i,
    {
        bytes.push(0);
        i += 1;
        assert(bytes@ =~= requested(i));
    }
    bytes
}

/// Reads a driver frame into a raw message. A frame whose length is
/// beyond a classic frame is not read any further.
pub fn read_raw(frame: &CanFrame) -> (r: Result<RawFrame, InvalidFrame>)
    ensures
        match r {
            Ok(raw) => frame_dlc(*frame) <= MAX_PAYLOAD && raw@ == frame_view(*frame),
            Err(e) => frame_dlc(*frame) > MAX_PAYLOAD && e == InvalidFrame::PayloadTooLong,
        },
{
    let dlc = dlc_of(frame);
    if dlc > MAX_PAYLOAD {
        return Err(InvalidFrame::PayloadTooLong);
    }
    let is_rtr = remote_flag_of(frame);
    let data = if is_rtr {
        zeros(dlc)
    } else {
        payload_of(frame)
    };
    Ok(
        RawFrame {
            id: identifier_of(frame),
            data,
            is_extended: extended_flag_of(frame),
            is_error: error_flag_of(frame),
            is_rtr,
        },
    )
}

/// Turns a driver frame into the canonical record: the frame is read
/// field by field and goes through the codec.
pub fn decode(frame: &CanFrame) -> (r: Result<CanMessage, InvalidFrame>)
    ensures
        match r {
            Ok(record) => frame_rejection(*frame) is None && record@ == frame_view(*frame),
            Err(e) => frame_rejection(*frame) == Some(e),
        },
{
    match read_raw(frame) {
        Ok(raw) => normalize(raw),
        Err(e) => Err(e),
    }
}

/// The driver's identifier for an outbound frame: an extended one where
/// the frame says so, else a standard one.
pub open spec fn wire_id(frame: OutboundView) -> Option<CanId> {
    if frame.is_extended {
        extended_can_id(frame.id)
    } else if frame.id <= u16::MAX {
        standard_can_id(frame.id as u16)
    } else {
        None
    }
}

/// The driver's frame for an outbound frame: a remote request for the
/// length of its data where the frame is one, else a data frame with its
/// bytes.
pub open spec fn wire_frame(frame: OutboundView) -> Option<CanFrame> {
    match wire_id(frame) {
        Some(id) => if frame.is_rtr {
            classic_remote_frame(id, frame.data.len() as usize)
        } else {
            classic_data_frame(id, frame.data)
        },
        None => None,
    }
}

/// What the frame built for an outbound frame says when it is read: the
/// same identifier, addressing mode and kind, for a data frame the same
/// bytes and for a remote request the same length; never an error frame.
pub open spec fn on_the_wire(frame: OutboundView) -> MessageView {
    MessageView {
        id: frame.id,
        data: if frame.is_rtr {
            requested(frame.data.len() as usize)
        } else {
            frame.data
        },
        is_extended: frame.is_extended,
        is_error: false,
        is_rtr: frame.is_rtr,
    }
}

/// Builds the driver's frame for a validated outbound frame. The driver's
/// constructors never refuse one, and what they build reads back as the
/// frame that was asked for.
pub fn build_frame(frame: &OutboundFrame) -> (r: CanFrame)
    ensures
        wire_frame(frame@) == Some(r),
        frame_view(r) == on_the_wire(frame@),
        frame_dlc(r) == frame@.data.len(),
        frame_rejection(r) is None,
{
    let raw = frame.id();
    let id = if frame.is_extended() {
        can_id_extended(raw)
    } else {
        can_id_standard(raw as u16)
    };
    let id = id.unwrap();
    let built = if frame.is_rtr() {
        new_remote_frame(id, frame.data().len())
    } else {
        new_data_frame(id, frame.data().as_slice())
    };
    let built = built.unwrap();
    assert(frame_view(built).data =~= on_the_wire(frame@).data);
    built
}

/// Checks a transmit request and builds the driver's frame for it. A
/// request is refused for the reasons for which [`prepare_outbound`]
/// refuses it, and for no other.
pub fn encode_request(req: SendRequest) -> (r: Result<CanFrame, InvalidFrame>)
    ensures
        match r {
            Ok(built) => {
                &&& outbound_rejection(req@) is None
                &&& wire_frame(req@) == Some(built)
                &&& frame_view(built) == on_the_wire(req@)
                &&& frame_rejection(built) is None
            },
            Err(e) => outbound_rejection(req@) == Some(e),
        },
{
    match prepare_outbound(req) {
        Ok(frame) => Ok(build_frame(&frame)),
        Err(e) => Err(e),
    }
}

} // verus!
