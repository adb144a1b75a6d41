//! Validation of frames that a consumer asks to put on the bus.

use vstd::prelude::*;
use crate::message::{id_in_range, InvalidFrame, EXTENDED_ID_MAX, MAX_PAYLOAD, STANDARD_ID_MAX};

verus! {

/// A consumer's request to transmit a frame, as it arrived.
#[derive(Debug)]
pub struct SendRequest {
    pub id: u32,
    pub data: Vec<u8>,
    pub is_extended: bool,
    pub is_rtr: bool,
}

/// The mathematical content of a transmit request or of an outbound frame.
pub struct OutboundView {
    pub id: u32,
    pub data: Seq<u8>,
    pub is_extended: bool,
    pub is_rtr: bool,
}

impl OutboundView {
    /// What the bus driver accepts: an identifier within its addressing
    /// mode and at most eight bytes (for a remote request: a requested
    /// length of at most eight).
    pub open spec fn wf(self) -> bool {
        &&& id_in_range(self.id, self.is_extended)
        &&& self.data.len() <= MAX_PAYLOAD
    }
}

impl View for SendRequest {
    type V = OutboundView;

    open spec fn view(&self) -> OutboundView {
        OutboundView {
            id: self.id,
            data: self.data@,
            is_extended: self.is_extended,
            is_rtr: self.is_rtr,
        }
    }
}

/// A frame that is fit to be written to the bus. It is never an error
/// frame: those are only ever received.
#[derive(Debug)]
pub struct OutboundFrame {
    id: u32,
    data: Vec<u8>,
    is_extended: bool,
    is_rtr: bool,
}

impl View for OutboundFrame {
    type V = OutboundView;

    closed spec fn view(&self) -> OutboundView {
        OutboundView {
            id: self.id,
            data: self.data@,
            is_extended: self.is_extended,
            is_rtr: self.is_rtr,
        }
    }
}

impl OutboundFrame {
    /// The invariant that every outbound frame carries at run time.
    #[verifier::type_invariant]
    pub open spec fn inv(self) -> bool {
        self@.wf()
    }

    /// The frame identifier, within the range of its addressing mode.
    pub fn id(&self) -> (r: u32)
        ensures
            r == self@.id,
            id_in_range(r, self@.is_extended),
    {
        proof {
            use_type_invariant(self);
        }
        self.id
    }

    /// The payload, or for a remote request as many bytes as are requested;
    /// never more than eight.
    pub fn data(&self) -> (r: &Vec<u8>)
        ensures
            r@ == self@.data,
            r@.len() <= MAX_PAYLOAD,
    {
        proof {
            use_type_invariant(self);
        }
        &self.data
    }

    /// Whether the identifier is a 29-bit one.
    pub fn is_extended(&self) -> (r: bool)
        ensures
            r == self@.is_extended,
    {
        self.is_extended
    }

    /// Whether the frame is a remote transmission request.
    pub fn is_rtr(&self) -> (r: bool)
        ensures
            r == self@.is_rtr,
    {
        self.is_rtr
    }
}

/// The reason for which a transmit request is refused, if it is: the
/// identifier is judged first, then the length.
pub open spec fn outbound_rejection(req: OutboundView) -> Option<InvalidFrame> {
    if !id_in_range(req.id, req.is_extended) {
        Some(InvalidFrame::IdentifierOutOfRange)
    } else if req.data.len() > MAX_PAYLOAD {
        Some(InvalidFrame::PayloadTooLong)
    } else {
        None
    }
}

/// Checks a transmit request and turns it into an outbound frame.
///
/// The request is refused when its identifier exceeds the range of its
/// addressing mode, or when it names more than eight bytes. An accepted
/// request is copied field by field.
pub fn prepare_outbound(req: SendRequest) -> (r: Result<OutboundFrame, InvalidFrame>)
    ensures
        match r {
            Ok(frame) => outbound_rejection(req@) is None && frame@ == req@ && frame@.wf(),
            Err(e) => outbound_rejection(req@) == Some(e),
        },
{
    let limit: u32 = if req.is_extended {
        EXTENDED_ID_MAX
    } else {
        STANDARD_ID_MAX
    };
    if req.id > limit {
        return Err(InvalidFrame::IdentifierOutOfRange);
    }
    if req.data.len() > MAX_PAYLOAD {
        return Err(InvalidFrame::PayloadTooLong);
    }
    Ok(
        OutboundFrame {
            id: req.id,
            data: req.data,
            is_extended: req.is_extended,
            is_rtr: req.is_rtr,
        },
    )
}

} // verus!
