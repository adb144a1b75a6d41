//! The canonical message record and the frame codec that produces it.

use vstd::prelude::*;

verus! {

/// Largest identifier of a standard (11-bit) frame.
pub const STANDARD_ID_MAX: u32 = 0x7FF;

/// Largest identifier of an extended (29-bit) frame.
pub const EXTENDED_ID_MAX: u32 = 0x1FFF_FFFF;

/// Largest payload, in bytes, of a classic frame.
pub const MAX_PAYLOAD: usize = 8;

/// Why a frame was refused by the codec.
#[derive(Clone, Copy, Debug, PartialEq, Eq, Structural)]
pub enum InvalidFrame {
    /// The identifier does not fit the addressing mode of the frame.
    IdentifierOutOfRange,
    /// The payload is longer than a classic frame can carry.
    PayloadTooLong,
}

/// Whether `id` fits the addressing mode selected by `is_extended`.
pub open spec fn id_in_range(id: u32, is_extended: bool) -> bool {
    if is_extended {
        id <= EXTENDED_ID_MAX
    } else {
        id <= STANDARD_ID_MAX
    }
}

/// A bus message as the driver delivered it, before any validation.
#[derive(Debug)]
pub struct RawFrame {
    pub id: u32,
    pub data: Vec<u8>,
    pub is_extended: bool,
    pub is_error: bool,
    pub is_rtr: bool,
}

/// The mathematical content of a message record.
pub struct MessageView {
    pub id: u32,
    pub data: Seq<u8>,
    pub is_extended: bool,
    pub is_error: bool,
    pub is_rtr: bool,
}

impl MessageView {
    /// The invariant of every record: the identifier fits its addressing
    /// mode and there are at most eight bytes (for a remote request: a
    /// requested length of at most eight).
    pub open spec fn wf(self) -> bool {
        &&& id_in_range(self.id, self.is_extended)
        &&& self.data.len() <= MAX_PAYLOAD
    }
}

impl View for RawFrame {
    type V = MessageView;

    open spec fn view(&self) -> MessageView {
        MessageView {
            id: self.id,
            data: self.data@,
            is_extended: self.is_extended,
            is_error: self.is_error,
            is_rtr: self.is_rtr,
        }
    }
}

/// The canonical record of one bus message. It is made by [`normalize`]
/// only and never changes afterwards.
#[derive(Debug)]
pub struct CanMessage {
    id: u32,
    data: Vec<u8>,
    is_extended: bool,
    is_error: bool,
    is_rtr: bool,
}

impl View for CanMessage {
    type V = MessageView;

    closed spec fn view(&self) -> MessageView {
        MessageView {
            id: self.id,
            data: self.data@,
            is_extended: self.is_extended,
            is_error: self.is_error,
            is_rtr: self.is_rtr,
        }
    }
}

impl CanMessage {
    /// The invariant that every record carries at run time.
    #[verifier::type_invariant]
    pub open spec fn inv(self) -> bool {
        self@.wf()
    }

    /// The frame identifier.
    pub fn id(&self) -> (r: u32)
        ensures
            r == self@.id,
            id_in_range(r, self@.is_extended),
    {
        proof {
            use_type_invariant(self);
        }
        self.id
    }

    /// The payload bytes (for a remote request: as many bytes as are
    /// requested); never more than eight.
    pub fn data(&self) -> (r: &Vec<u8>)
        ensures
            r@ == self@.data,
            r@.len() <= MAX_PAYLOAD,
    {
        proof {
            use_type_invariant(self);
        }
        &self.data
    }

    /// Whether the identifier is a 29-bit one.
    pub fn is_extended(&self) -> (r: bool)
        ensures
            r == self@.is_extended,
    {
        self.is_extended
    }

    /// Whether the record reports a transport fault rather than data.
    pub fn is_error(&self) -> (r: bool)
        ensures
            r == self@.is_error,
    {
        self.is_error
    }

    /// Whether the record is a remote transmission request.
    pub fn is_rtr(&self) -> (r: bool)
        ensures
            r == self@.is_rtr,
    {
        self.is_rtr
    }
}

impl Clone for CanMessage {
    fn clone(&self) -> (r: Self)
        ensures
            r@ == self@,
    {
        proof {
            use_type_invariant(self);
        }
        let data = self.data.clone();
        assert(data@ =~= self.data@);
        CanMessage {
            id: self.id,
            data,
            is_extended: self.is_extended,
            is_error: self.is_error,
            is_rtr: self.is_rtr,
        }
    }
}

/// The contents of a list of records.
pub open spec fn views(records: Seq<CanMessage>) -> Seq<MessageView> {
    records.map_values(|m: CanMessage| m@)
}

/// Whether every one of `records` satisfies the invariant of a record.
pub open spec fn all_wf(records: Seq<MessageView>) -> bool {
    forall|i: int| 0 <= i < records.len() ==> (#[trigger] records[i]).wf()
}

/// The reason for which the codec refuses `raw`, if it does: the
/// identifier is judged first, then the payload.
pub open spec fn rejection(raw: MessageView) -> Option<InvalidFrame> {
    if !id_in_range(raw.id, raw.is_extended) {
        Some(InvalidFrame::IdentifierOutOfRange)
    } else if raw.data.len() > MAX_PAYLOAD {
        Some(InvalidFrame::PayloadTooLong)
    } else {
        None
    }
}

/// Validates a raw bus message and turns it into the canonical record.
///
/// The frame is refused when its identifier exceeds the range of its
/// addressing mode, or when it holds more than eight bytes. An accepted
/// frame is copied field by field.
pub fn normalize(raw: RawFrame) -> (r: Result<CanMessage, InvalidFrame>)
    ensures
        match r {
            Ok(m) => rejection(raw@) is None && m@ == raw@ && m@.wf(),
            Err(e) => rejection(raw@) == Some(e),
        },
{
    let limit: u32 = if raw.is_extended {
        EXTENDED_ID_MAX
    } else {
        STANDARD_ID_MAX
    };
    if raw.id > limit {
        return Err(InvalidFrame::IdentifierOutOfRange);
    }
    if raw.data.len() > MAX_PAYLOAD {
        return Err(InvalidFrame::PayloadTooLong);
    }
    Ok(
        CanMessage {
            id: raw.id,
            data: raw.data,
            is_extended: raw.is_extended,
            is_error: raw.is_error,
            is_rtr: raw.is_rtr,
        },
    )
}

} // verus!
