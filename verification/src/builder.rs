//! The settings shared by decoder and frame writer.
use crate::decoder::{DecodeState, Decoder};
use crate::framed_write::FramedWrite;
use vstd::prelude::*;

verus! {

/// The settings as plain values, as contracts speak of them.
#[derive(Debug, Clone, Copy, PartialEq, Eq, Structural)]
pub struct Config {
    /// The largest payload length accepted, in either direction.
    pub max_frame_length: usize,
    /// How many bytes the decoder skips before the length field.
    pub length_field_offset: usize,
    /// Whether a decoded frame is the payload alone.
    pub strip_frame: bool,
}

/// The payload limit of a fresh builder: 32 MiB.
pub const DEFAULT_MAX_FRAME_LENGTH: usize = 33_554_432;

/// Collects the framing settings; decoders and frame writers copy it when made.
#[derive(Debug, Clone, Copy)]
pub struct Builder {
    max_frame_len: usize,
    length_field_offset: usize,
    strip_frame: bool,
}

impl View for Builder {
    type V = Config;

    closed spec fn view(&self) -> Config {
        Config {
            max_frame_length: self.max_frame_len,
            length_field_offset: self.length_field_offset,
            strip_frame: self.strip_frame,
        }
    }
}

impl Builder {
    /// A builder with the default settings: a limit of 32 MiB, no bytes before
    /// the length field, frames stripped to their payload.
    pub fn new() -> (b: Builder)
        ensures
            b@ == (Config {
                max_frame_length: DEFAULT_MAX_FRAME_LENGTH,
                length_field_offset: 0,
                strip_frame: true,
            }),
    {
        Builder {
            max_frame_len: DEFAULT_MAX_FRAME_LENGTH,
            length_field_offset: 0,
            strip_frame: true,
        }
    }

    /// Sets the largest payload length, for decoding and encoding alike.
    pub fn max_frame_length(&mut self, val: usize) -> (b: &mut Self)
        ensures
            b@ == (Config { max_frame_length: val, ..old(self)@ }),
            *final(self) == *final(b),
    {
        self.max_frame_len = val;
        self
    }

    /// Sets the number of bytes that precede the length field. Decoding only.
    pub fn length_field_offset(&mut self, val: usize) -> (b: &mut Self)
        ensures
            b@ == (Config { length_field_offset: val, ..old(self)@ }),
            *final(self) == *final(b),
    {
        self.length_field_offset = val;
        self
    }

    /// Sets whether decoded frames are stripped to the payload. Decoding only.
    pub fn strip_frame(&mut self, val: bool) -> (b: &mut Self)
        ensures
            b@ == (Config { strip_frame: val, ..old(self)@ }),
            *final(self) == *final(b),
    {
        self.strip_frame = val;
        self
    }

    /// A frame writer over `inner` with these settings and nothing pending.
    /// Changing the builder afterwards does not reach the writer.
    pub fn new_write<T>(&self, inner: T) -> (w: FramedWrite<T>)
        ensures
            w.wf(),
            w.transport() == inner,
            w.config() == self@,
            w.pending().is_none(),
    {
        FramedWrite::with_builder(*self, inner)
    }

    /// The decoder of a reading side with these settings, waiting for a frame
    /// head; the caller feeds it the bytes that its transport delivers.
    /// Changing the builder afterwards does not reach the decoder.
    pub fn new_read(&self) -> (d: Decoder)
        ensures
            d.wf(),
            d.config() == self@,
            d.state() == DecodeState::Head,
    {
        Decoder::with_builder(*self)
    }

    /// The settings as they stand.
    pub fn config(&self) -> (c: Config)
        ensures
            c == self@,
    {
        Config {
            max_frame_length: self.max_frame_len,
            length_field_offset: self.length_field_offset,
            strip_frame: self.strip_frame,
        }
    }
}

} // verus!
