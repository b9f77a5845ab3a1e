//! The errors of decoding and encoding, with the category and the text under
//! which a transport layer reports them.
use vstd::prelude::*;

verus! {

/// The category that an error is reported under.
#[derive(Debug, Clone, Copy, PartialEq, Eq, Structural)]
pub enum ErrorKind {
    /// Bytes received do not form a frame.
    InvalidData,
    /// A value handed in by the caller is not acceptable.
    InvalidInput,
}

/// Why a stream cannot be decoded any further.
#[derive(Debug, Clone, Copy, PartialEq, Eq, Structural)]
pub enum DecodeError {
    /// The length field is not a decimal number that fits in 64 bits.
    MalformedLength,
    /// The length field announces more than the configured limit.
    FrameTooLarge,
}

/// Why a payload was not taken for sending.
#[derive(Debug, Clone, Copy, PartialEq, Eq, Structural)]
pub enum EncodeError {
    /// The payload is longer than the configured limit.
    FrameTooLarge,
}

impl DecodeError {
    /// The text of the error.
    pub open spec fn text(self) -> Seq<char> {
        match self {
            DecodeError::MalformedLength => "Could not parse length"@,
            DecodeError::FrameTooLarge => "frame size too big"@,
        }
    }

    /// Every decoding error is a fault of the data received.
    pub fn kind(&self) -> (k: ErrorKind)
        ensures
            k == ErrorKind::InvalidData,
    {
        ErrorKind::InvalidData
    }

    /// The text of the error.
    pub fn message(&self) -> (m: &'static str)
        ensures
            m@ == self.text(),
    {
        match self {
            DecodeError::MalformedLength => "Could not parse length",
            DecodeError::FrameTooLarge => "frame size too big",
        }
    }
}

impl EncodeError {
    /// The text of the error.
    pub open spec fn text(self) -> Seq<char> {
        match self {
            EncodeError::FrameTooLarge => "frame too big"@,
        }
    }

    /// Every encoding error is a fault of the payload handed in.
    pub fn kind(&self) -> (k: ErrorKind)
        ensures
            k == ErrorKind::InvalidInput,
    {
        ErrorKind::InvalidInput
    }

    /// The text of the error.
    pub fn message(&self) -> (m: &'static str)
        ensures
            m@ == self.text(),
    {
        match self {
            EncodeError::FrameTooLarge => "frame too big",
        }
    }
}

} // verus!
