//! The incremental decoder: a two-state machine over a buffer that the caller
//! keeps filling.
use crate::buffer::{as_slice, buffered};
use crate::builder::{Builder, Config, DEFAULT_MAX_FRAME_LENGTH};
use crate::decimal::{parse_decimal, parsed_length};
use crate::error::DecodeError;
use bytes::BytesMut;
use vstd::prelude::*;
use vstd::slice::slice_subrange;

verus! {

/// The byte that ends the length field.
pub const SEPARATOR: u8 = 0x3a;

/// The byte that ends a frame.
pub const TERMINATOR: u8 = 0x2c;

/// The length of the shortest netstring, `0:,`.
pub const MINIMUM_NETSTRING: usize = 3;

/// Where the decoder stands between two calls.
#[derive(Debug, Clone, Copy, PartialEq, Eq, Structural)]
pub enum DecodeState {
    /// Waiting for a complete frame head.
    Head,
    /// The head is read; the payload has this many bytes.
    Data(usize),
}

/// What a scan for a frame head finds in a buffer.
pub enum HeadScan {
    /// The head is not complete yet.
    Incomplete,
    /// The bytes before the separator are no length.
    Malformed,
    /// The length is over the limit.
    TooLarge,
    /// A head of `head_len` bytes that announces `payload_len` bytes.
    Found { payload_len: usize, head_len: int },
}

/// What one call of the decoder leaves behind and hands out.
pub struct Decoded {
    /// The state after the call.
    pub state: DecodeState,
    /// How many bytes of a head that was read are still in the buffer.
    pub kept: nat,
    /// The buffer after the call.
    pub buffer: Seq<u8>,
    /// A frame, a wish for more bytes (`Ok(None)`), or the error.
    pub outcome: Result<Option<Seq<u8>>, DecodeError>,
}

/// The index of the first separator in `s` at or after `from`, or the length
/// of `s` where there is none.
pub open spec fn find_separator(s: Seq<u8>, from: int) -> int
    decreases s.len() - from,
{
    if from >= s.len() {
        s.len() as int
    } else if from >= 0 && s[from] == SEPARATOR {
        from
    } else {
        find_separator(s, from + 1)
    }
}

/// The head that `buf` starts with, as far as it has arrived.
pub open spec fn scan_head(cfg: Config, buf: Seq<u8>) -> HeadScan {
    let start = cfg.length_field_offset as int;
    let sep = find_separator(buf, start);
    if buf.len() < start + MINIMUM_NETSTRING || sep >= buf.len() {
        HeadScan::Incomplete
    } else {
        match parsed_length(buf.subrange(start, sep)) {
            None => HeadScan::Malformed,
            Some(n) => if n > cfg.max_frame_length {
                HeadScan::TooLarge
            } else {
                HeadScan::Found { payload_len: n as usize, head_len: sep + 1 }
            },
        }
    }
}

/// What a scan for a head reports to the caller: the payload length, a wish
/// for more bytes (`Ok(None)`), or the error.
pub open spec fn head_result(scan: HeadScan) -> Result<Option<usize>, DecodeError> {
    match scan {
        HeadScan::Incomplete => Ok(None),
        HeadScan::Malformed => Err(DecodeError::MalformedLength),
        HeadScan::TooLarge => Err(DecodeError::FrameTooLarge),
        HeadScan::Found { payload_len, head_len } => Ok(Some(payload_len)),
    }
}

/// The buffer after a scan for a head: a head that was found is cut off
/// where frames are stripped, and in every other case nothing changes.
pub open spec fn after_head(cfg: Config, buf: Seq<u8>) -> Seq<u8> {
    match scan_head(cfg, buf) {
        HeadScan::Found { payload_len, head_len } => if cfg.strip_frame {
            buf.skip(head_len)
        } else {
            buf
        },
        _ => buf,
    }
}

/// The head bytes that stay in the buffer after a scan for a head: all of a
/// head that was found where frames keep their head, none of it where frames
/// are stripped; in every other case the number stays as it was.
pub open spec fn kept_after_head(cfg: Config, kept: nat, buf: Seq<u8>) -> nat {
    match scan_head(cfg, buf) {
        HeadScan::Found { payload_len, head_len } => if cfg.strip_frame {
            0
        } else {
            head_len as nat
        },
        _ => kept,
    }
}

/// The bytes that a frame takes at the front of the buffer once its head
/// announcing `n` bytes is read: the head where it was kept, the payload and
/// the terminator.
pub open spec fn frame_span(cfg: Config, n: usize, kept: nat) -> int {
    if cfg.strip_frame {
        n + 1
    } else {
        kept + n + 1
    }
}

/// The decoder's move once a head announcing `n` bytes is read, `kept` bytes
/// of which are still buffered: it waits until payload and terminator have
/// arrived behind them, then hands out the payload alone (stripping) or the
/// netstring from its first byte to the terminator. What arrived after the
/// terminator stays buffered.
pub open spec fn data_step(cfg: Config, n: usize, kept: nat, buf: Seq<u8>) -> Decoded {
    let span = frame_span(cfg, n, kept);
    if buf.len() < span {
        Decoded { state: DecodeState::Data(n), kept, buffer: buf, outcome: Ok(None) }
    } else {
        Decoded {
            state: DecodeState::Head,
            kept: 0,
            buffer: buf.skip(span),
            outcome: Ok(
                Some(
                    if cfg.strip_frame {
                        buf.subrange(0, n as int)
                    } else {
                        buf.subrange(0, span)
                    },
                ),
            ),
        }
    }
}

/// One call of the decoder in `state`, with `kept` head bytes buffered, on
/// the buffer `buf`.
pub open spec fn decode_step(cfg: Config, state: DecodeState, kept: nat, buf: Seq<u8>) -> Decoded {
    match state {
        DecodeState::Data(n) => data_step(cfg, n, kept, buf),
        DecodeState::Head => match head_result(scan_head(cfg, buf)) {
            Ok(Some(n)) => data_step(
                cfg,
                n,
                kept_after_head(cfg, kept, buf),
                after_head(cfg, buf),
            ),
            Ok(None) => Decoded { state, kept, buffer: buf, outcome: Ok(None) },
            Err(e) => Decoded { state, kept, buffer: buf, outcome: Err(e) },
        },
    }
}

/// A decoder's result with each buffer replaced by the bytes it holds.
pub open spec fn outcome_of(r: Result<Option<BytesMut>, DecodeError>) -> Result<
    Option<Seq<u8>>,
    DecodeError,
> {
    match r {
        Ok(Some(frame)) => Ok(Some(buffered(frame))),
        Ok(None) => Ok(None),
        Err(e) => Err(e),
    }
}

/// The first separator at or after `from` is at `at` when no byte between the
/// two is one and `at` is one or the end.
pub proof fn lemma_find_separator(s: Seq<u8>, from: int, at: int)
    requires
        0 <= from <= at <= s.len(),
        forall|j: int| from <= j < at ==> s[j] != SEPARATOR,
        at < s.len() ==> s[at] == SEPARATOR,
    ensures
        find_separator(s, from) == at,
    decreases at - from,
{
    if from < at {
        lemma_find_separator(s, from + 1, at);
    }
}

/// Where the first separator at or after `from` is: no byte before it is
/// one, and it is one unless it is the end.
pub proof fn lemma_separator_is_first(s: Seq<u8>, from: int)
    requires
        0 <= from <= s.len(),
    ensures
        from <= find_separator(s, from) <= s.len(),
        forall|j: int| from <= j < find_separator(s, from) ==> s[j] != SEPARATOR,
        find_separator(s, from) < s.len() ==> s[find_separator(s, from)] == SEPARATOR,
    decreases s.len() - from,
{
    if from < s.len() && s[from] != SEPARATOR {
        lemma_separator_is_first(s, from + 1);
    }
}

/// Makes room for `a + b` more bytes where the length that the buffer would
/// then have is one that an allocation can hold; what the buffer holds stays
/// as it is.
fn reserve_room(src: &mut BytesMut, a: usize, b: usize)
    ensures
        buffered(*final(src)) == buffered(*old(src)),
{
    let len: usize = src.len();
    let most: usize = isize::MAX as usize;
    if len <= most && a <= most - len && b <= most - len - a {
        src.reserve(a + b);
    }
}

/// Turns a byte stream into frames, keeping its place between calls.
#[derive(Debug)]
pub struct Decoder {
    builder: Builder,
    state: DecodeState,
    // Bytes of the head last read that are still in the buffer.
    head_len: usize,
}

impl Decoder {
    /// The settings that the decoder was made with.
    pub closed spec fn config(&self) -> Config {
        self.builder@
    }

    /// The state that the decoder is in.
    pub closed spec fn state(&self) -> DecodeState {
        self.state
    }

    /// How many bytes of the head last read are still in the buffer: none
    /// where frames are stripped.
    pub closed spec fn kept(&self) -> nat {
        self.head_len as nat
    }

    /// A payload is only awaited once its length has passed the limit check.
    pub open spec fn wf(&self) -> bool {
        match self.state() {
            DecodeState::Head => true,
            DecodeState::Data(n) => n <= self.config().max_frame_length,
        }
    }

    /// A decoder with the default settings, waiting for a head.
    pub fn new() -> (d: Decoder)
        ensures
            d.config() == (Config {
                max_frame_length: DEFAULT_MAX_FRAME_LENGTH,
                length_field_offset: 0,
                strip_frame: true,
            }),
            d.state() == DecodeState::Head,
            d.kept() == 0,
            d.wf(),
    {
        Decoder { builder: Builder::new(), state: DecodeState::Head, head_len: 0 }
    }

    /// A decoder with the builder's settings, waiting for a head.
    pub(crate) fn with_builder(builder: Builder) -> (d: Decoder)
        ensures
            d.config() == builder@,
            d.state() == DecodeState::Head,
            d.kept() == 0,
            d.wf(),
    {
        Decoder { builder, state: DecodeState::Head, head_len: 0 }
    }

    /// The state that the decoder is in.
    pub fn current_state(&self) -> (s: DecodeState)
        ensures
            s == self.state(),
    {
        self.state
    }

    /// Looks for a complete frame head at the start of `src` and returns the
    /// payload length that it announces. A head that is found is cut off
    /// when frames are stripped; else it stays and the decoder notes its
    /// length. In every other case `src` and the decoder stay as they are.
    pub fn decode_head(&mut self, src: &mut BytesMut) -> (r: Result<Option<usize>, DecodeError>)
        ensures
            final(self).config() == old(self).config(),
            final(self).state() == old(self).state(),
            final(self).kept() == kept_after_head(
                old(self).config(),
                old(self).kept(),
                buffered(*old(src)),
            ),
            r == head_result(scan_head(old(self).config(), buffered(*old(src)))),
            buffered(*final(src)) == after_head(old(self).config(), buffered(*old(src))),
            r matches Ok(Some(n)) ==> n <= old(self).config().max_frame_length,
    {
        let cfg = self.builder.config();
        let len: usize = src.len();
        let start: usize = cfg.length_field_offset;
        if len < MINIMUM_NETSTRING || len - MINIMUM_NETSTRING < start {
            return Ok(None);
        }
        let bytes = as_slice(src);
        let mut sep: usize = start;
        while sep < len && bytes[sep] != SEPARATOR
            invariant
                len == bytes@.len(),
                start <= sep <= len,
                forall|j: int| start <= j < sep ==> bytes@[j] != SEPARATOR,
            decreases len - sep,
        {
            sep = sep + 1;
        }
        proof {
            lemma_find_separator(bytes@, start as int, sep as int);
        }
        if sep >= len {
            return Ok(None);
        }
        let n: u64 = match parse_decimal(slice_subrange(bytes, start, sep)) {
            Some(n) => n,
            None => {
                return Err(DecodeError::MalformedLength);
            },
        };
        if n > cfg.max_frame_length as u64 {
            return Err(DecodeError::FrameTooLarge);
        }
        let payload_len: usize = n as usize;
        if cfg.strip_frame {
            let _ = src.split_to(sep + 1);
            self.head_len = 0;
        } else {
            self.head_len = sep + 1;
        }
        reserve_room(src, payload_len, 1);
        Ok(Some(payload_len))
    }

    /// Hands out the frame whose head announced `n` bytes once its payload
    /// and terminator are buffered: the payload alone when frames are
    /// stripped, the terminator being dropped, and else the netstring from
    /// its first byte to the terminator, behind the head that was kept. What
    /// follows the terminator stays in `src`.
    pub fn decode_data(&self, n: usize, src: &mut BytesMut) -> (r: Result<
        Option<BytesMut>,
        DecodeError,
    >)
        ensures
            outcome_of(r) == data_step(
                self.config(),
                n,
                self.kept(),
                buffered(*old(src)),
            ).outcome,
            buffered(*final(src)) == data_step(
                self.config(),
                n,
                self.kept(),
                buffered(*old(src)),
            ).buffer,
    {
        let len: usize = src.len();
        if len <= n {
            return Ok(None);
        }
        if self.builder.config().strip_frame {
            let content = src.split_to(n);
            let _ = src.split_to(1);
            proof {
                assert(buffered(*src) =~= buffered(*old(src)).skip(n + 1));
            }
            Ok(Some(content))
        } else {
            if len - n - 1 < self.head_len {
                return Ok(None);
            }
            Ok(Some(src.split_to(self.head_len + n + 1)))
        }
    }

    /// Decodes as far as the bytes in `src` allow. A frame comes out when it
    /// has arrived whole; `Ok(None)` asks for more bytes and loses nothing of
    /// what was read so far; an error leaves decoder and buffer as they were.
    pub fn decode(&mut self, src: &mut BytesMut) -> (r: Result<Option<BytesMut>, DecodeError>)
        requires
            old(self).wf(),
        ensures
            final(self).wf(),
            final(self).config() == old(self).config(),
            final(self).state() == decode_step(
                old(self).config(),
                old(self).state(),
                old(self).kept(),
                buffered(*old(src)),
            ).state,
            final(self).kept() == decode_step(
                old(self).config(),
                old(self).state(),
                old(self).kept(),
                buffered(*old(src)),
            ).kept,
            buffered(*final(src)) == decode_step(
                old(self).config(),
                old(self).state(),
                old(self).kept(),
                buffered(*old(src)),
            ).buffer,
            outcome_of(r) == decode_step(
                old(self).config(),
                old(self).state(),
                old(self).kept(),
                buffered(*old(src)),
            ).outcome,
    {
        let n: usize = match self.state {
            DecodeState::Head => {
                match self.decode_head(src) {
                    Ok(Some(n)) => {
                        self.state = DecodeState::Data(n);
                        n
                    },
                    Ok(None) => {
                        return Ok(None);
                    },
                    Err(e) => {
                        return Err(e);
                    },
                }
            },
            DecodeState::Data(n) => n,
        };
        match self.decode_data(n, src) {
            Ok(Some(data)) => {
                self.state = DecodeState::Head;
                self.head_len = 0;
                reserve_room(src, self.builder.config().length_field_offset, MINIMUM_NETSTRING);
                Ok(Some(data))
            },
            Ok(None) => Ok(None),
            Err(e) => Err(e),
        }
    }
}

} // verus!
