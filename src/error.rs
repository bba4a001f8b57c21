use vstd::prelude::*;

verus! {

/// Why an operation of the endpoint failed.
#[derive(Clone, Copy, Debug, PartialEq, Eq, Structural)]
pub enum WsError {
    /// The handshake request carries no `Sec-WebSocket-Key` header.
    MissingChallenge,
    /// A frame needs the 64-bit extended length, which is not supported.
    UnsupportedFrameLength,
    /// The payload of a received frame is not valid UTF-8.
    InvalidText,
    /// The bytes end before the frame they announce is complete.
    Truncated,
    /// The session already failed and takes no more traffic.
    SessionClosed,
}

/// The broad families of failure.
#[derive(Clone, Copy, Debug, PartialEq, Eq, Structural)]
pub enum ErrorClass {
    IoFailure,
    ProtocolViolation,
    ContentValidation,
}

pub open spec fn class_of(e: WsError) -> ErrorClass {
    match e {
        WsError::MissingChallenge => ErrorClass::ProtocolViolation,
        WsError::UnsupportedFrameLength => ErrorClass::ProtocolViolation,
        WsError::InvalidText => ErrorClass::ContentValidation,
        WsError::Truncated => ErrorClass::IoFailure,
        WsError::SessionClosed => ErrorClass::IoFailure,
    }
}

impl WsError {
    /// The family this error belongs to.
    pub fn class(&self) -> (r: ErrorClass)
        ensures
            r == class_of(*self),
    {
        match self {
            WsError::MissingChallenge => ErrorClass::ProtocolViolation,
            WsError::UnsupportedFrameLength => ErrorClass::ProtocolViolation,
            WsError::InvalidText => ErrorClass::ContentValidation,
            WsError::Truncated => ErrorClass::IoFailure,
            WsError::SessionClosed => ErrorClass::IoFailure,
        }
    }
}

} // verus!
