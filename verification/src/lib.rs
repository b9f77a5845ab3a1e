//! Netstring framing for byte streams.
//!
//! A frame travels as a decimal length, a `:`, the payload and a closing `,`.
//! [`Decoder`] cuts whole frames out of a buffer that fills up piece by piece,
//! [`FramedWrite`] lays a payload out for the wire and hands it on in the
//! pieces that a transport accepts, and [`Builder`] holds the settings of both.
pub mod buffer;
pub mod builder;
pub mod decimal;
pub mod decoder;
pub mod error;
pub mod framed_write;
pub mod laws;

pub use crate::builder::{Builder, Config};
pub use crate::decoder::{DecodeState, Decoder};
pub use crate::error::{DecodeError, EncodeError, ErrorKind};
pub use crate::framed_write::{FramedWrite, SendOutcome};
