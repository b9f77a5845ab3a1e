//! What holds of decoder and frame writer together, for every payload and every
//! setting.
use crate::builder::Config;
use crate::decimal::{all_digits, decimal_digits, decimal_value, is_digit, lemma_digits_spell};
use crate::decoder::{
    decode_step, find_separator, lemma_find_separator, lemma_separator_is_first, scan_head,
    DecodeState, Decoded, HeadScan, MINIMUM_NETSTRING, SEPARATOR, TERMINATOR,
};
use crate::error::DecodeError;
use crate::framed_write::{
    encode_frame, frame_head, framed, submit_pending, submit_reply, Pending, Reply,
};
use vstd::prelude::*;

verus! {

/// A frame as it reaches a decoder: the bytes before the length field, then
/// the netstring of the payload.
pub open spec fn wire_frame(prefix: Seq<u8>, payload: Seq<u8>) -> Seq<u8> {
    prefix + encode_frame(payload)
}

/// The length of the head of that frame: prefix, digits and separator.
pub open spec fn head_length(prefix: Seq<u8>, payload: Seq<u8>) -> int {
    (prefix.len() + frame_head(payload.len()).len()) as int
}

/// A decoder that has seen nothing yet.
pub open spec fn fresh() -> Decoded {
    Decoded { state: DecodeState::Head, kept: 0, buffer: Seq::empty(), outcome: Ok(None) }
}

/// The chunks laid end to end.
pub open spec fn joined(chunks: Seq<Seq<u8>>) -> Seq<u8>
    decreases chunks.len(),
{
    if chunks.len() == 0 {
        Seq::empty()
    } else {
        joined(chunks.drop_last()) + chunks.last()
    }
}

/// The decoder after the chunks were appended to its buffer one at a time,
/// with one call of the decoder after each; the outcome is that of the last
/// call.
pub open spec fn feed_all(cfg: Config, start: Decoded, chunks: Seq<Seq<u8>>) -> Decoded
    decreases chunks.len(),
{
    if chunks.len() == 0 {
        start
    } else {
        let before = feed_all(cfg, start, chunks.drop_last());
        decode_step(cfg, before.state, before.kept, before.buffer + chunks.last())
    }
}

/// Where a decoder rests after it was called on the first bytes `seen` of a
/// frame that has not arrived whole.
pub open spec fn resting(cfg: Config, prefix: Seq<u8>, payload: Seq<u8>, seen: Seq<u8>) -> Decoded {
    if seen.len() >= cfg.length_field_offset + MINIMUM_NETSTRING && seen.len() >= head_length(
        prefix,
        payload,
    ) {
        Decoded {
            state: DecodeState::Data(payload.len() as usize),
            kept: if cfg.strip_frame {
                0
            } else {
                head_length(prefix, payload) as nat
            },
            buffer: if cfg.strip_frame {
                seen.skip(head_length(prefix, payload))
            } else {
                seen
            },
            outcome: Ok(None),
        }
    } else {
        Decoded { state: DecodeState::Head, kept: 0, buffer: seen, outcome: Ok(None) }
    }
}

/// What a scan finds in a buffer that holds the first bytes of a well-formed
/// frame, or all of it and more: the head, once at least the shortest
/// netstring and the separator have arrived.
proof fn lemma_scan_of_beginning(cfg: Config, prefix: Seq<u8>, payload: Seq<u8>, seen: Seq<u8>)
    requires
        prefix.len() == cfg.length_field_offset,
        payload.len() <= cfg.max_frame_length,
        seen.is_prefix_of(wire_frame(prefix, payload)) || wire_frame(prefix, payload).is_prefix_of(
            seen,
        ),
    ensures
        scan_head(cfg, seen) == if seen.len() >= cfg.length_field_offset + MINIMUM_NETSTRING
            && seen.len() >= head_length(prefix, payload) {
            HeadScan::Found {
                payload_len: payload.len() as usize,
                head_len: head_length(prefix, payload),
            }
        } else {
            HeadScan::Incomplete
        },
        wire_frame(prefix, payload).len() == head_length(prefix, payload) + payload.len() + 1,
        head_length(prefix, payload) >= cfg.length_field_offset + 2,
{
    let digits = decimal_digits(payload.len());
    let wire = wire_frame(prefix, payload);
    let start = prefix.len() as int;
    let sep = start + digits.len();
    lemma_digits_spell(payload.len());
    assert forall|j: int| start <= j < sep implies wire[j] != SEPARATOR by {
        assert(wire[j] == digits[j - start]);
        assert(is_digit(digits[j - start]));
    }
    assert(wire[sep] == SEPARATOR);
    assert forall|j: int| 0 <= j < seen.len() && j < wire.len() implies seen[j] == wire[j] by {
        if seen.is_prefix_of(wire) {
            assert(seen[j] == wire.subrange(0, seen.len() as int)[j]);
        } else {
            assert(wire[j] == seen.subrange(0, wire.len() as int)[j]);
        }
    }
    if seen.len() > sep {
        assert(seen[sep] == wire[sep]);
        lemma_find_separator(seen, start, sep);
        assert(seen.subrange(start, sep) =~= digits);
    } else if seen.len() >= start {
        lemma_find_separator(seen, start, seen.len() as int);
    }
}

/// **Frames come out in arrival order.** A decoder at the start of a frame
/// that has arrived whole hands out that frame, the payload alone or, where
/// frames are not stripped, the frame from its first byte to its terminator,
/// and keeps, untouched, whatever arrived after it.
pub proof fn law_first_frame_first(
    cfg: Config,
    kept: nat,
    prefix: Seq<u8>,
    payload: Seq<u8>,
    rest: Seq<u8>,
)
    requires
        prefix.len() == cfg.length_field_offset,
        payload.len() <= cfg.max_frame_length,
    ensures
        decode_step(cfg, DecodeState::Head, kept, wire_frame(prefix, payload) + rest) == (Decoded {
            state: DecodeState::Head,
            kept: 0,
            buffer: rest,
            outcome: Ok(
                Some(
                    if cfg.strip_frame {
                        payload
                    } else {
                        wire_frame(prefix, payload)
                    },
                ),
            ),
        }),
{
    let wire = wire_frame(prefix, payload);
    let buf = wire + rest;
    let h = head_length(prefix, payload);
    lemma_scan_of_beginning(cfg, prefix, payload, buf);
    if cfg.strip_frame {
        let body = buf.skip(h);
        assert(body =~= payload.push(TERMINATOR) + rest);
        assert(body.skip(payload.len() as int + 1) =~= rest);
        assert(body.subrange(0, payload.len() as int) =~= payload);
    } else {
        assert(buf.subrange(0, wire.len() as int) =~= wire);
        assert(buf.skip(wire.len() as int) =~= rest);
    }
}

/// **Round trip.** A frame that has arrived whole is decoded in one call:
/// the decoder hands out the payload, or the whole frame where frames are
/// not stripped, and is back at the start with an empty buffer. With no
/// bytes before the length field, the frame is what the writer sends.
pub proof fn law_round_trip(cfg: Config, kept: nat, prefix: Seq<u8>, payload: Seq<u8>)
    requires
        prefix.len() == cfg.length_field_offset,
        payload.len() <= cfg.max_frame_length,
    ensures
        decode_step(cfg, DecodeState::Head, kept, wire_frame(prefix, payload)) == (Decoded {
            state: DecodeState::Head,
            kept: 0,
            buffer: Seq::empty(),
            outcome: Ok(
                Some(
                    if cfg.strip_frame {
                        payload
                    } else {
                        wire_frame(prefix, payload)
                    },
                ),
            ),
        }),
        framed(payload).wire() == encode_frame(payload),
        prefix.len() == 0 ==> wire_frame(prefix, payload) == encode_frame(payload),
{
    let wire = wire_frame(prefix, payload);
    law_first_frame_first(cfg, kept, prefix, payload, Seq::empty());
    assert(wire + Seq::<u8>::empty() =~= wire);
    if prefix.len() == 0 {
        assert(wire =~= encode_frame(payload));
    }
}

/// **A partial arrival yields no frame.** A decoder fed the beginning of a
/// frame, in chunks, asks for more after the last of them and rests where
/// one call on all of that beginning would leave it: still at the start, or
/// past the head and waiting for the payload.
pub proof fn law_partial_arrival_waits(
    cfg: Config,
    prefix: Seq<u8>,
    payload: Seq<u8>,
    chunks: Seq<Seq<u8>>,
)
    requires
        prefix.len() == cfg.length_field_offset,
        payload.len() <= cfg.max_frame_length,
        joined(chunks).is_prefix_of(wire_frame(prefix, payload)),
        joined(chunks).len() < wire_frame(prefix, payload).len(),
    ensures
        feed_all(cfg, fresh(), chunks) == resting(cfg, prefix, payload, joined(chunks)),
        feed_all(cfg, fresh(), chunks).outcome == Ok::<Option<Seq<u8>>, DecodeError>(None),
    decreases chunks.len(),
{
    let wire = wire_frame(prefix, payload);
    let h = head_length(prefix, payload);
    if chunks.len() == 0 {
        lemma_scan_of_beginning(cfg, prefix, payload, joined(chunks));
    } else {
        let init = chunks.drop_last();
        let seen = joined(init);
        let now = joined(chunks);
        assert(now == seen + chunks.last());
        assert(seen.is_prefix_of(wire));
        law_partial_arrival_waits(cfg, prefix, payload, init);
        lemma_scan_of_beginning(cfg, prefix, payload, seen);
        lemma_scan_of_beginning(cfg, prefix, payload, now);
        let before = resting(cfg, prefix, payload, seen);
        if before.state == DecodeState::Head {
            assert(before.buffer + chunks.last() == now);
        } else if cfg.strip_frame {
            assert(before.buffer + chunks.last() =~= now.skip(h));
        } else {
            assert(before.buffer + chunks.last() == now);
        }
    }
}

/// **Incremental equivalence.** A frame that arrives in chunks, the decoder
/// being called after each, ends in the same frame, state and buffer as the
/// frame arriving whole, however it is cut. The last chunk is not empty:
/// else the frame came out with the call before it.
pub proof fn law_incremental(
    cfg: Config,
    prefix: Seq<u8>,
    payload: Seq<u8>,
    chunks: Seq<Seq<u8>>,
)
    requires
        prefix.len() == cfg.length_field_offset,
        payload.len() <= cfg.max_frame_length,
        chunks.len() > 0,
        chunks.last().len() > 0,
        joined(chunks) == wire_frame(prefix, payload),
    ensures
        feed_all(cfg, fresh(), chunks) == decode_step(
            cfg,
            DecodeState::Head,
            0,
            wire_frame(prefix, payload),
        ),
{
    let wire = wire_frame(prefix, payload);
    let h = head_length(prefix, payload);
    let init = chunks.drop_last();
    let seen = joined(init);
    assert(wire == seen + chunks.last());
    assert(seen.is_prefix_of(wire));
    law_partial_arrival_waits(cfg, prefix, payload, init);
    lemma_scan_of_beginning(cfg, prefix, payload, seen);
    lemma_scan_of_beginning(cfg, prefix, payload, wire);
    let before = resting(cfg, prefix, payload, seen);
    if before.state == DecodeState::Head {
        assert(before.buffer + chunks.last() == wire);
    } else if cfg.strip_frame {
        assert(before.buffer + chunks.last() =~= wire.skip(h));
    } else {
        assert(before.buffer + chunks.last() == wire);
    }
}

/// **Oversized frames are refused on sight.** Once the shortest netstring's
/// worth of bytes has arrived, a length field over the limit is an error
/// whatever follows the separator, and decoder and buffer stay as they were.
/// The error is `FrameTooLarge`, or `MalformedLength` where the number does
/// not even fit in 64 bits.
pub proof fn law_oversized_refused(
    cfg: Config,
    kept: nat,
    prefix: Seq<u8>,
    digits: Seq<u8>,
    rest: Seq<u8>,
)
    requires
        prefix.len() == cfg.length_field_offset,
        digits.len() > 0,
        all_digits(digits),
        decimal_value(digits) > cfg.max_frame_length,
        digits.len() + 1 + rest.len() >= MINIMUM_NETSTRING,
    ensures
        decode_step(cfg, DecodeState::Head, kept, prefix + digits.push(SEPARATOR) + rest) == (
        Decoded {
            state: DecodeState::Head,
            kept,
            buffer: prefix + digits.push(SEPARATOR) + rest,
            outcome: Err(
                if decimal_value(digits) <= u64::MAX {
                    DecodeError::FrameTooLarge
                } else {
                    DecodeError::MalformedLength
                },
            ),
        }),
{
    let buf = prefix + digits.push(SEPARATOR) + rest;
    let start = prefix.len() as int;
    let sep = start + digits.len();
    assert forall|j: int| start <= j < sep implies buf[j] != SEPARATOR by {
        assert(buf[j] == digits[j - start]);
        assert(is_digit(digits[j - start]));
    }
    assert(buf[sep] == SEPARATOR);
    lemma_find_separator(buf, start, sep);
    assert(buf.subrange(start, sep) =~= digits);
}

/// **A decoding error is final.** A decoder that fails at the start of a
/// frame fails in the same way however many bytes arrive after that, and its
/// state and buffer are not touched by the failing call.
pub proof fn law_error_is_final(cfg: Config, kept: nat, buf: Seq<u8>, more: Seq<u8>)
    requires
        decode_step(cfg, DecodeState::Head, kept, buf).outcome is Err,
    ensures
        decode_step(cfg, DecodeState::Head, kept, buf).state == DecodeState::Head,
        decode_step(cfg, DecodeState::Head, kept, buf).kept == kept,
        decode_step(cfg, DecodeState::Head, kept, buf).buffer == buf,
        decode_step(cfg, DecodeState::Head, kept, buf + more).outcome == decode_step(
            cfg,
            DecodeState::Head,
            kept,
            buf,
        ).outcome,
{
    let start = cfg.length_field_offset as int;
    let sep = find_separator(buf, start);
    lemma_separator_is_first(buf, start);
    let longer = buf + more;
    assert forall|j: int| start <= j < sep implies longer[j] != SEPARATOR by {
        assert(longer[j] == buf[j]);
    }
    assert(longer[sep] == buf[sep]);
    lemma_find_separator(longer, start, sep);
    assert(longer.subrange(start, sep) =~= buf.subrange(start, sep));
}

/// **A refused submission leaves the writer free.** A payload over the
/// limit is refused and nothing is queued, so that a payload within the
/// limit is accepted right after.
pub proof fn law_refusal_keeps_writer_free(cfg: Config, big: Seq<u8>, next: Seq<u8>)
    requires
        big.len() > cfg.max_frame_length,
        next.len() <= cfg.max_frame_length,
    ensures
        submit_reply(cfg, None, big) == Reply::TooLarge,
        submit_pending(cfg, None, big) == None::<Pending>,
        submit_reply(cfg, submit_pending(cfg, None, big), next) == Reply::Accepted,
        submit_pending(cfg, submit_pending(cfg, None, big), next) == Some(framed(next)),
{
}

/// **Frames leave in order and whole.** What is left to write after the
/// transport accepted `n` bytes of the piece offered is what was left
/// before, without its first `n` bytes; the piece offered is the beginning
/// of what was left.
pub proof fn law_written_in_order(p: Pending, n: nat)
    requires
        p.sent < p.wire().len(),
        n <= p.next_chunk().len(),
    ensures
        p.next_chunk().len() > 0,
        p.next_chunk().is_prefix_of(p.remaining()),
        match p.advanced(n) {
            Some(q) => q.remaining() == p.remaining().skip(n as int),
            None => n == p.remaining().len(),
        },
{
    let c = p.next_chunk();
    assert(c =~= p.remaining().subrange(0, c.len() as int));
    match p.advanced(n) {
        Some(q) => {
            assert(q.wire() == p.wire());
            assert(q.remaining() =~= p.remaining().skip(n as int));
        },
        None => {},
    }
}

} // verus!
