//! The frame writer: lays a payload out as a netstring and offers it to the
//! transport piece by piece, as the transport accepts it.
use crate::buffer::{as_slice, buffered};
use crate::builder::{Builder, Config, DEFAULT_MAX_FRAME_LENGTH};
use crate::decimal::{decimal_digits, push_decimal};
use crate::decoder::{SEPARATOR, TERMINATOR};
use crate::error::EncodeError;
use bytes::BytesMut;
use vstd::prelude::*;
use vstd::slice::slice_subrange;

verus! {

/// What became of a payload handed to [`FramedWrite::start_send`].
#[derive(Debug)]
pub enum SendOutcome {
    /// The payload is framed and waits to be written.
    Ready,
    /// An earlier frame is not written out yet; the payload comes back.
    NotReady(BytesMut),
}

/// The reply to a submission, without the buffer that may come back.
pub enum Reply {
    /// The payload was framed.
    Accepted,
    /// An earlier frame is still pending.
    Busy,
    /// The payload is over the limit.
    TooLarge,
}

/// A frame on its way out: its parts, and how many of its bytes are written.
pub struct Pending {
    /// The length in decimal and the separator.
    pub head: Seq<u8>,
    /// The payload.
    pub payload: Seq<u8>,
    /// How many bytes of the frame the transport has accepted.
    pub sent: nat,
}

impl Pending {
    /// The frame as it goes over the wire.
    pub open spec fn wire(self) -> Seq<u8> {
        self.head + self.payload + seq![TERMINATOR]
    }

    /// The bytes that are not written yet.
    pub open spec fn remaining(self) -> Seq<u8> {
        self.wire().skip(self.sent as int)
    }

    /// The next piece to offer to the transport: the rest of the part that
    /// the first unwritten byte lies in.
    pub open spec fn next_chunk(self) -> Seq<u8> {
        if self.sent < self.head.len() {
            self.head.skip(self.sent as int)
        } else if self.sent < self.head.len() + self.payload.len() {
            self.payload.skip(self.sent - self.head.len())
        } else {
            seq![TERMINATOR]
        }
    }

    /// The frame after the transport accepted `n` more bytes: `None` once
    /// every byte is written.
    pub open spec fn advanced(self, n: nat) -> Option<Pending> {
        if self.sent + n >= self.wire().len() {
            None
        } else {
            Some(Pending { sent: self.sent + n, ..self })
        }
    }
}

/// The head of a frame whose payload has `len` bytes.
pub open spec fn frame_head(len: nat) -> Seq<u8> {
    decimal_digits(len).push(SEPARATOR)
}

/// The netstring of `payload`: length, separator, payload, terminator.
pub open spec fn encode_frame(payload: Seq<u8>) -> Seq<u8> {
    frame_head(payload.len()) + payload + seq![TERMINATOR]
}

/// The frame that a fresh submission of `payload` leaves pending.
pub open spec fn framed(payload: Seq<u8>) -> Pending {
    Pending { head: frame_head(payload.len()), payload, sent: 0 }
}

/// What a submission of `payload` is answered with, given what is pending.
pub open spec fn submit_reply(cfg: Config, pending: Option<Pending>, payload: Seq<u8>) -> Reply {
    if pending.is_some() {
        Reply::Busy
    } else if payload.len() > cfg.max_frame_length {
        Reply::TooLarge
    } else {
        Reply::Accepted
    }
}

/// What is pending after a submission of `payload`.
pub open spec fn submit_pending(
    cfg: Config,
    pending: Option<Pending>,
    payload: Seq<u8>,
) -> Option<Pending> {
    match submit_reply(cfg, pending, payload) {
        Reply::Accepted => Some(framed(payload)),
        _ => pending,
    }
}

/// The reply that a result of [`FramedWrite::start_send`] stands for.
pub open spec fn reply_of(r: Result<SendOutcome, EncodeError>) -> Reply {
    match r {
        Ok(SendOutcome::Ready) => Reply::Accepted,
        Ok(SendOutcome::NotReady(_)) => Reply::Busy,
        Err(EncodeError::FrameTooLarge) => Reply::TooLarge,
    }
}

/// The part of a pending frame that the next byte to write lies in.
#[derive(Debug, Clone, Copy)]
enum Section {
    Head,
    Payload,
    Tail,
}

/// A frame on its way out, with the place that writing has reached.
#[derive(Debug)]
struct PendingFrame {
    head: Vec<u8>,
    payload: BytesMut,
    tail: Vec<u8>,
    section: Section,
    offset: usize,
}

impl PendingFrame {
    spec fn wf(&self) -> bool {
        &&& self.head@ == frame_head(buffered(self.payload).len())
        &&& self.tail@ == seq![TERMINATOR]
        &&& match self.section {
            Section::Head => self.offset < self.head@.len(),
            Section::Payload => self.offset < buffered(self.payload).len(),
            Section::Tail => self.offset == 0,
        }
    }

    /// The rest of the part that writing has reached.
    fn chunk(&self) -> (part: &[u8])
        requires
            self.wf(),
        ensures
            part@ == self.view().next_chunk(),
    {
        match self.section {
            Section::Head => slice_subrange(self.head.as_slice(), self.offset, self.head.len()),
            Section::Payload => slice_subrange(
                as_slice(&self.payload),
                self.offset,
                self.payload.len(),
            ),
            Section::Tail => self.tail.as_slice(),
        }
    }

    spec fn view(&self) -> Pending {
        Pending {
            head: self.head@,
            payload: buffered(self.payload),
            sent: match self.section {
                Section::Head => self.offset as nat,
                Section::Payload => self.head@.len() + self.offset as nat,
                Section::Tail => self.head@.len() + buffered(self.payload).len(),
            },
        }
    }
}

/// Frames payloads for the transport `T` and keeps at most one frame pending
/// until it is written. Writing itself is the caller's: it offers
/// [`FramedWrite::next_chunk`] to the transport and reports what was accepted
/// to [`FramedWrite::advance`].
#[derive(Debug)]
pub struct FramedWrite<T> {
    inner: T,
    builder: Builder,
    frame: Option<PendingFrame>,
}

impl<T> FramedWrite<T> {
    /// The transport that the writer holds.
    pub closed spec fn transport(&self) -> T {
        self.inner
    }

    /// The settings that the writer was made with.
    pub closed spec fn config(&self) -> Config {
        self.builder@
    }

    /// The frame that waits to be written, if there is one.
    pub closed spec fn pending(&self) -> Option<Pending> {
        match self.frame {
            Some(f) => Some(f.view()),
            None => None,
        }
    }

    /// A pending frame is the netstring of a payload within the limit, and
    /// the place that writing has reached lies within it.
    pub closed spec fn wf(&self) -> bool {
        match self.frame {
            Some(f) => f.wf() && buffered(f.payload).len() <= self.builder@.max_frame_length,
            None => true,
        }
    }

    /// A pending frame is the netstring of its payload, the payload is within
    /// the limit, and bytes are left to write.
    pub proof fn lemma_pending_frame(&self)
        requires
            self.wf(),
            self.pending().is_some(),
        ensures
            self.pending().unwrap().payload.len() <= self.config().max_frame_length,
            self.pending().unwrap().wire() == encode_frame(self.pending().unwrap().payload),
            self.pending().unwrap().sent < self.pending().unwrap().wire().len(),
    {
    }

    /// A writer over `inner` with the default settings and nothing pending.
    pub fn new(inner: T) -> (w: FramedWrite<T>)
        ensures
            w.wf(),
            w.transport() == inner,
            w.config() == (Config {
                max_frame_length: DEFAULT_MAX_FRAME_LENGTH,
                length_field_offset: 0,
                strip_frame: true,
            }),
            w.pending().is_none(),
    {
        FramedWrite { inner, builder: Builder::new(), frame: None }
    }

    /// A writer over `inner` with the builder's settings and nothing pending.
    pub(crate) fn with_builder(builder: Builder, inner: T) -> (w: FramedWrite<T>)
        ensures
            w.wf(),
            w.transport() == inner,
            w.config() == builder@,
            w.pending().is_none(),
    {
        FramedWrite { inner, builder, frame: None }
    }

    /// The transport. Writing to it directly while a frame is pending breaks
    /// the framing.
    pub fn get_ref(&self) -> (t: &T)
        ensures
            *t == self.transport(),
    {
        &self.inner
    }

    /// The transport, to be changed in place. The writer's settings and
    /// pending frame are not touched by what the caller does with it.
    pub fn get_mut(&mut self) -> (t: &mut T)
        ensures
            *t == old(self).transport(),
            final(self).transport() == *final(t),
            final(self).config() == old(self).config(),
            final(self).pending() == old(self).pending(),
            final(self).wf() == old(self).wf(),
    {
        &mut self.inner
    }

    /// Gives the transport back and drops what was pending.
    pub fn into_inner(self) -> (t: T)
        ensures
            t == self.transport(),
    {
        self.inner
    }

    /// Whether a frame waits to be written.
    pub fn has_pending(&self) -> (b: bool)
        ensures
            b == self.pending().is_some(),
    {
        self.frame.is_some()
    }

    /// Frames `payload` and makes it the pending frame, unless it is longer
    /// than the limit: then nothing is queued. Nothing may be pending.
    pub fn set_frame(&mut self, payload: BytesMut) -> (r: Result<(), EncodeError>)
        requires
            old(self).wf(),
            old(self).pending().is_none(),
        ensures
            final(self).wf(),
            final(self).config() == old(self).config(),
            final(self).transport() == old(self).transport(),
            buffered(payload).len() > old(self).config().max_frame_length ==> r == Err::<
                (),
                EncodeError,
            >(EncodeError::FrameTooLarge) && final(self).pending().is_none(),
            buffered(payload).len() <= old(self).config().max_frame_length ==> r == Ok::<
                (),
                EncodeError,
            >(()) && final(self).pending() == Some(framed(buffered(payload))),
    {
        let n: usize = payload.len();
        if n > self.builder.config().max_frame_length {
            return Err(EncodeError::FrameTooLarge);
        }
        let mut head: Vec<u8> = Vec::with_capacity(8);
        push_decimal(n, &mut head);
        head.push(SEPARATOR);
        let mut tail: Vec<u8> = Vec::with_capacity(1);
        tail.push(TERMINATOR);
        proof {
            assert(head@ =~= frame_head(n as nat));
            assert(tail@ =~= seq![TERMINATOR]);
        }
        self.frame = Some(PendingFrame { head, payload, tail, section: Section::Head, offset: 0 });
        Ok(())
    }

    /// Takes `item` for sending. While an earlier frame is pending the item
    /// comes back untouched; an item over the limit is refused and the
    /// writer stays free; any other item becomes the pending frame.
    pub fn start_send(&mut self, item: BytesMut) -> (r: Result<SendOutcome, EncodeError>)
        requires
            old(self).wf(),
        ensures
            final(self).wf(),
            final(self).config() == old(self).config(),
            final(self).transport() == old(self).transport(),
            reply_of(r) == submit_reply(old(self).config(), old(self).pending(), buffered(item)),
            final(self).pending() == submit_pending(
                old(self).config(),
                old(self).pending(),
                buffered(item),
            ),
            r matches Ok(SendOutcome::NotReady(back)) ==> back == item,
    {
        if self.frame.is_some() {
            return Ok(SendOutcome::NotReady(item));
        }
        match self.set_frame(item) {
            Ok(()) => Ok(SendOutcome::Ready),
            Err(e) => Err(e),
        }
    }

    /// The next piece to offer to the transport, or `None` when nothing is
    /// pending.
    pub fn next_chunk(&self) -> (chunk: Option<&[u8]>)
        requires
            self.wf(),
        ensures
            match self.pending() {
                Some(p) => chunk.is_some() && chunk.unwrap()@ == p.next_chunk(),
                None => chunk.is_none(),
            },
    {
        match &self.frame {
            None => None,
            Some(f) => Some(f.chunk()),
        }
    }

    /// The transport together with the next piece to offer to it, so that a
    /// caller can write the piece without copying it. The writer's settings
    /// and pending frame are not touched by what the caller does with the
    /// transport.
    pub fn write_parts(&mut self) -> (parts: (&mut T, Option<&[u8]>))
        requires
            old(self).wf(),
        ensures
            *parts.0 == old(self).transport(),
            final(self).transport() == *final(parts.0),
            final(self).config() == old(self).config(),
            final(self).pending() == old(self).pending(),
            final(self).wf(),
            match old(self).pending() {
                Some(p) => parts.1.is_some() && parts.1.unwrap()@ == p.next_chunk(),
                None => parts.1.is_none(),
            },
    {
        let chunk: Option<&[u8]> = match &self.frame {
            None => None,
            Some(f) => Some(f.chunk()),
        };
        (&mut self.inner, chunk)
    }

    /// Records that the transport accepted the first `n` bytes of the piece
    /// last offered, and says whether the frame is written out. The frame
    /// stops being pending with its last byte.
    pub fn advance(&mut self, n: usize) -> (done: bool)
        requires
            old(self).wf(),
            old(self).pending().is_some(),
            n <= old(self).pending().unwrap().next_chunk().len(),
        ensures
            final(self).wf(),
            final(self).config() == old(self).config(),
            final(self).transport() == old(self).transport(),
            final(self).pending() == old(self).pending().unwrap().advanced(n as nat),
            done == final(self).pending().is_none(),
    {
        let frame = self.frame.take();
        let mut done: bool = true;
        match frame {
            None => {},
            Some(f) => {
                let head_len: usize = f.head.len();
                let payload_len: usize = f.payload.len();
                let mut section = f.section;
                let mut offset: usize = f.offset;
                match f.section {
                    Section::Head => {
                        done = false;
                        if n < head_len - offset {
                            offset = offset + n;
                        } else if payload_len > 0 {
                            section = Section::Payload;
                            offset = 0;
                        } else {
                            section = Section::Tail;
                            offset = 0;
                        }
                    },
                    Section::Payload => {
                        done = false;
                        if n < payload_len - offset {
                            offset = offset + n;
                        } else {
                            section = Section::Tail;
                            offset = 0;
                        }
                    },
                    Section::Tail => {
                        done = n > 0;
                    },
                }
                if !done {
                    self.frame = Some(
                        PendingFrame {
                            head: f.head,
                            payload: f.payload,
                            tail: f.tail,
                            section,
                            offset,
                        },
                    );
                }
            },
        }
        done
    }
}

} // verus!
