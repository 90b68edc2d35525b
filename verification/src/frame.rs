//! Length-delimited framing: each message travels as the varint of its
//! length followed by that many bytes.
//!
//! The reader keeps every byte it was given and has not handed out yet, so
//! what it delivers depends on the bytes alone and not on the sizes of the
//! chunks they came in.

use crate::varint::{
    decode_varint, encode_varint, encoding, lemma_decode_bounds, lemma_decode_encoding,
    lemma_decode_extend, lemma_encoding_len_u64, lemma_parse_after_run, parse, spec_decode, Varint,
    MAX_VARINT_LEN,
};
use vstd::prelude::*;
use vstd::seq_lib::lemma_flatten_concat;
use vstd::slice::{slice_subrange, slice_to_vec};

verus! {

/// How many bytes of a message are looked at for its length prefix.
pub const PROBE_CAPACITY: usize = 10;

/// Why a stream cannot be cut into messages any further.
#[derive(Clone, Copy, Debug, PartialEq, Eq, Structural)]
pub enum FramingError {
    /// The length prefix fills the probe buffer without coming to an end.
    PrefixTooLong,
    /// The stream ended inside a length prefix or inside a payload.
    PrematureEof,
    /// The payload is longer than a 32-bit length can say.
    PayloadTooLarge,
}

/// What the front of a byte stream holds, read as one frame.
pub enum Frame {
    /// A whole message; `consumed` counts its prefix and its payload.
    Complete { payload: Seq<u8>, consumed: nat },
    /// A whole prefix, and a payload that is `missing` bytes short.
    Partial { missing: nat },
    /// No whole prefix yet.
    NoPrefix,
    /// A prefix of more than `PROBE_CAPACITY` bytes.
    Malformed,
}

/// The payload length that a decoded prefix stands for: its low 32 bits.
pub open spec fn payload_len(prefix: u64) -> nat {
    (prefix % 0x1_0000_0000) as nat
}

/// Reads one frame from the front of `bytes`.
pub open spec fn spec_frame(bytes: Seq<u8>) -> Frame {
    match spec_decode(bytes) {
        Varint::Complete { value, consumed } => {
            let end = (consumed + payload_len(value)) as nat;
            if end <= bytes.len() {
                Frame::Complete {
                    payload: bytes.subrange(consumed as int, end as int),
                    consumed: end,
                }
            } else {
                Frame::Partial { missing: (end - bytes.len()) as nat }
            }
        },
        Varint::Incomplete => Frame::NoPrefix,
        Varint::Malformed => Frame::Malformed,
    }
}

/// The bytes of one framed message.
pub open spec fn spec_frame_bytes(payload: Seq<u8>) -> Seq<u8> {
    encoding(payload.len()) + payload
}

/// What a reader answers when asked for the next message.
#[derive(Clone, Debug, PartialEq, Eq)]
pub enum Poll {
    /// The payload of the next message.
    Message(Vec<u8>),
    /// The length prefix has no end yet: read at most `max` more bytes, as
    /// many as the probe buffer still takes, and feed them.
    NeedPrefix { max: u64 },
    /// The payload is `max` bytes short: read at most that many and feed them.
    NeedPayload { max: u64 },
    /// The stream ended between two messages.
    EndOfStream,
    /// The stream is broken for good.
    Failed(FramingError),
}

/// `Poll` with the payload as a sequence.
pub enum PollView {
    Message(Seq<u8>),
    NeedPrefix { max: u64 },
    NeedPayload { max: u64 },
    EndOfStream,
    Failed(FramingError),
}

impl View for Poll {
    type V = PollView;

    open spec fn view(&self) -> PollView {
        match *self {
            Poll::Message(payload) => PollView::Message(payload@),
            Poll::NeedPrefix { max } => PollView::NeedPrefix { max },
            Poll::NeedPayload { max } => PollView::NeedPayload { max },
            Poll::EndOfStream => PollView::EndOfStream,
            Poll::Failed(e) => PollView::Failed(e),
        }
    }
}

/// The answer to give on the bytes held, and the bytes to keep. `at_end`
/// says that the stream has just reported its end.
pub open spec fn spec_poll(held: Seq<u8>, at_end: bool) -> (PollView, Seq<u8>) {
    match spec_frame(held) {
        Frame::Complete { payload, consumed } => (
            PollView::Message(payload),
            held.skip(consumed as int),
        ),
        Frame::Partial { missing } => if at_end {
            (PollView::Failed(FramingError::PrematureEof), held)
        } else {
            (PollView::NeedPayload { max: missing as u64 }, held)
        },
        Frame::NoPrefix => if !at_end {
            (PollView::NeedPrefix { max: (PROBE_CAPACITY - held.len()) as u64 }, held)
        } else if held.len() == 0 {
            (PollView::EndOfStream, held)
        } else {
            (PollView::Failed(FramingError::PrematureEof), held)
        },
        Frame::Malformed => (PollView::Failed(FramingError::PrefixTooLong), held),
    }
}

/// Cuts a byte stream that arrives in pieces into messages.
pub struct FrameReader {
    held: Vec<u8>,
}

impl View for FrameReader {
    type V = Seq<u8>;

    /// The bytes received and not yet handed out.
    closed spec fn view(&self) -> Seq<u8> {
        self.held@
    }
}

impl FrameReader {
    /// A reader that holds nothing.
    pub fn new() -> (r: FrameReader)
        ensures
            r@ == Seq::<u8>::empty(),
    {
        FrameReader { held: Vec::new() }
    }

    /// How many bytes are held.
    pub fn held_len(&self) -> (n: usize)
        ensures
            n == self@.len(),
    {
        self.held.len()
    }

    fn answer(&mut self, at_end: bool) -> (r: Poll)
        ensures
            r@ == spec_poll(old(self)@, at_end).0,
            final(self)@ == spec_poll(old(self)@, at_end).1,
    {
        proof {
            lemma_decode_bounds(self.held@);
        }
        let total: usize = self.held.len();
        match decode_varint(self.held.as_slice()) {
            Varint::Complete { value, consumed } => {
                let wanted: u64 = value % 0x1_0000_0000;
                let have: u64 = (total - consumed) as u64;
                if wanted <= have {
                    let end: usize = consumed + wanted as usize;
                    let payload = slice_to_vec(slice_subrange(self.held.as_slice(), consumed, end));
                    let rest = slice_to_vec(slice_subrange(self.held.as_slice(), end, total));
                    self.held = rest;
                    Poll::Message(payload)
                } else if at_end {
                    Poll::Failed(FramingError::PrematureEof)
                } else {
                    Poll::NeedPayload { max: wanted - have }
                }
            },
            Varint::Incomplete => {
                if !at_end {
                    Poll::NeedPrefix { max: (PROBE_CAPACITY - total) as u64 }
                } else if total == 0 {
                    Poll::EndOfStream
                } else {
                    Poll::Failed(FramingError::PrematureEof)
                }
            },
            Varint::Malformed => Poll::Failed(FramingError::PrefixTooLong),
        }
    }

    /// Asks for the next message on the bytes already held.
    ///
    /// A whole message at the front is handed out and leaves the reader.
    /// Otherwise the answer says how many bytes to read at most: what the
    /// payload still lacks, or what the probe buffer still takes while the
    /// prefix has no end.
    pub fn poll(&mut self) -> (r: Poll)
        ensures
            r@ == spec_poll(old(self)@, false).0,
            final(self)@ == spec_poll(old(self)@, false).1,
    {
        self.answer(false)
    }

    /// Takes what one read of the stream returned and asks for the next
    /// message. An empty `chunk` says that the stream has ended: that is a
    /// clean end where the reader holds nothing, and a failure inside a
    /// prefix or a payload.
    pub fn feed(&mut self, chunk: &[u8]) -> (r: Poll)
        ensures
            r@ == spec_poll(old(self)@ + chunk@, chunk@.len() == 0).0,
            final(self)@ == spec_poll(old(self)@ + chunk@, chunk@.len() == 0).1,
    {
        let mut i: usize = 0;
        while i < chunk.len()
            invariant
                i <= chunk.len(),
                self@ == old(self)@ + chunk@.subrange(0, i as int),
            decreases chunk.len() - i,
        {
            let ghost before = self.held@;
            self.held.push(chunk[i]);
            i += 1;
            assert(before.push(chunk@[i - 1]) =~= old(self)@ + chunk@.subrange(0, i as int));
        }
        assert(chunk@.subrange(0, i as int) =~= chunk@);
        self.answer(chunk.len() == 0)
    }
}

/// Frames one payload: the varint of its length, then the payload. A reader
/// finds in the frame that payload and nothing else.
pub fn encode_frame(payload: &[u8]) -> (r: Result<Vec<u8>, FramingError>)
    ensures
        payload@.len() <= u32::MAX ==> (r matches Ok(bytes) && bytes@ == spec_frame_bytes(
            payload@,
        ) && spec_frame(bytes@) == (Frame::Complete {
            payload: payload@,
            consumed: bytes@.len(),
        })),
        payload@.len() > u32::MAX ==> r == Err::<Vec<u8>, FramingError>(
            FramingError::PayloadTooLarge,
        ),
{
    if payload.len() > u32::MAX as usize {
        return Err(FramingError::PayloadTooLarge);
    }
    let mut out: Vec<u8> = Vec::new();
    encode_varint(payload.len() as u64, &mut out);
    let ghost prefix = out@;
    let mut i: usize = 0;
    while i < payload.len()
        invariant
            i <= payload.len(),
            out@ == prefix + payload@.subrange(0, i as int),
        decreases payload.len() - i,
    {
        let ghost before = out@;
        out.push(payload[i]);
        i += 1;
        assert(before.push(payload@[i - 1]) =~= prefix + payload@.subrange(0, i as int));
    }
    proof {
        assert(payload@.subrange(0, i as int) =~= payload@);
        assert(prefix =~= encoding(payload@.len()));
        lemma_frame_round_trip(payload@, Seq::empty());
        assert(spec_frame_bytes(payload@) + Seq::<u8>::empty() =~= spec_frame_bytes(payload@));
    }
    Ok(out)
}

/// What each reading of the front says of the number of bytes: a whole
/// frame takes at least one byte and no more than there are, a payload
/// lacks at least one byte, a prefix without an end has fewer than
/// `PROBE_CAPACITY` bytes, and one that is too long has at least as many.
pub proof fn lemma_frame_bounds(bytes: Seq<u8>)
    ensures
        match spec_frame(bytes) {
            Frame::Complete { payload, consumed } => 1 <= consumed <= bytes.len(),
            Frame::Partial { missing } => 1 <= missing < 0x1_0000_0000 + MAX_VARINT_LEN,
            Frame::NoPrefix => bytes.len() < PROBE_CAPACITY,
            Frame::Malformed => PROBE_CAPACITY <= bytes.len(),
        },
{
    lemma_decode_bounds(bytes);
}

/// A whole frame at the front, or a prefix that is too long, stays what it
/// is when more bytes arrive.
pub proof fn lemma_frame_extend(bytes: Seq<u8>, more: Seq<u8>)
    requires
        spec_frame(bytes) is Complete || spec_frame(bytes) is Malformed,
    ensures
        spec_frame(bytes + more) == spec_frame(bytes),
{
    lemma_decode_extend(bytes, more);
    if let Frame::Complete { payload, consumed } = spec_frame(bytes) {
        assert(spec_frame(bytes + more)->Complete_payload =~= payload);
    }
}

/// The reader finds in a framed payload exactly that payload, and stops at
/// its last byte, whatever follows.
pub proof fn lemma_frame_round_trip(payload: Seq<u8>, rest: Seq<u8>)
    requires
        payload.len() <= u32::MAX,
    ensures
        spec_frame(spec_frame_bytes(payload) + rest) == (Frame::Complete {
            payload,
            consumed: spec_frame_bytes(payload).len(),
        }),
{
    let prefix = encoding(payload.len());
    let all = spec_frame_bytes(payload) + rest;
    assert(all =~= prefix + (payload + rest));
    lemma_decode_encoding(payload.len() as u64, payload + rest);
    lemma_encoding_len_u64(payload.len() as u64);
    assert(all.subrange(prefix.len() as int, (prefix.len() + payload.len()) as int) =~= payload);
}

/// The messages that stand whole at the front of a stream, in order.
pub open spec fn frames(bytes: Seq<u8>) -> Seq<Seq<u8>>
    decreases bytes.len(),
{
    match spec_frame(bytes) {
        Frame::Complete { payload, consumed } => {
            proof {
                lemma_frame_bounds(bytes);
            }
            seq![payload] + frames(bytes.skip(consumed as int))
        },
        _ => Seq::empty(),
    }
}

/// What is left of a stream behind its whole messages.
pub open spec fn remainder(bytes: Seq<u8>) -> Seq<u8>
    decreases bytes.len(),
{
    match spec_frame(bytes) {
        Frame::Complete { payload, consumed } => {
            proof {
                lemma_frame_bounds(bytes);
            }
            remainder(bytes.skip(consumed as int))
        },
        _ => bytes,
    }
}

/// The messages found do not depend on where the stream was cut: taking the
/// messages out of `first`, and then out of what was left followed by
/// `second`, gives the messages of the two pieces read as one, and leaves
/// the same bytes behind.
pub proof fn lemma_read_size_independence(first: Seq<u8>, second: Seq<u8>)
    ensures
        frames(first + second) == frames(first) + frames(remainder(first) + second),
        remainder(first + second) == remainder(remainder(first) + second),
    decreases first.len(),
{
    match spec_frame(first) {
        Frame::Complete { payload, consumed } => {
            lemma_frame_bounds(first);
            lemma_frame_extend(first, second);
            let tail = first.skip(consumed as int);
            assert((first + second).skip(consumed as int) =~= tail + second);
            lemma_read_size_independence(tail, second);
            assert(seq![payload] + (frames(tail) + frames(remainder(tail) + second)) =~= (
            seq![payload] + frames(tail)) + frames(remainder(tail) + second));
        },
        _ => {
            assert(frames(first) + frames(first + second) =~= frames(first + second));
        },
    }
}

/// The messages handed out, and the bytes still held, by a reader that was
/// fed these pieces one after the other and asked for all messages after
/// each.
pub open spec fn read_in_pieces(pieces: Seq<Seq<u8>>) -> (Seq<Seq<u8>>, Seq<u8>)
    decreases pieces.len(),
{
    if pieces.len() == 0 {
        (Seq::empty(), Seq::empty())
    } else {
        let (found, held) = read_in_pieces(pieces.drop_last());
        (found + frames(held + pieces.last()), remainder(held + pieces.last()))
    }
}

/// However a stream is cut into pieces, be it byte by byte, the reader
/// hands out the messages of the whole stream read at once, and holds the
/// same bytes at the end.
pub proof fn lemma_pieces_do_not_matter(pieces: Seq<Seq<u8>>)
    ensures
        read_in_pieces(pieces) == (frames(pieces.flatten()), remainder(pieces.flatten())),
    decreases pieces.len(),
{
    if pieces.len() > 0 {
        let front = pieces.drop_last();
        lemma_pieces_do_not_matter(front);
        lemma_read_size_independence(front.flatten(), pieces.last());
        assert(pieces.flatten() == front.flatten() + pieces.last()) by {
            assert(pieces =~= front + seq![pieces.last()]);
            lemma_flatten_concat(front, seq![pieces.last()]);
            seq![pieces.last()].lemma_flatten_one_element();
        }
    }
}

/// An answer to `poll` takes the first of the messages that stand whole at
/// the front, and leaves the others for the next answers; any other answer
/// means that no message stands whole at the front. A number of bytes to
/// read is never 0.
pub proof fn lemma_poll_takes_first_frame(held: Seq<u8>)
    ensures
        match spec_poll(held, false).0 {
            PollView::Message(payload) => frames(held) == seq![payload] + frames(
                spec_poll(held, false).1,
            ) && remainder(held) == remainder(spec_poll(held, false).1),
            PollView::NeedPrefix { max } => frames(held).len() == 0 && remainder(held) == held
                && 1 <= max <= PROBE_CAPACITY,
            PollView::NeedPayload { max } => frames(held).len() == 0 && remainder(held) == held
                && 1 <= max,
            PollView::EndOfStream => false,
            PollView::Failed(e) => frames(held).len() == 0 && remainder(held) == held && e
                == FramingError::PrefixTooLong,
        },
{
    lemma_frame_bounds(held);
}

/// A prefix that ends with its tenth byte is read; one that runs on through
/// ten bytes is refused, whatever follows.
pub proof fn lemma_prefix_boundary(bytes: Seq<u8>)
    requires
        bytes.len() >= PROBE_CAPACITY,
        forall|k: int| 0 <= k < PROBE_CAPACITY - 1 ==> bytes[k] >= 128,
    ensures
        bytes[PROBE_CAPACITY - 1] < 128 ==> spec_decode(bytes) is Complete && spec_decode(
            bytes,
        )->consumed == PROBE_CAPACITY,
        bytes[PROBE_CAPACITY - 1] >= 128 ==> spec_frame(bytes) is Malformed,
{
    lemma_parse_after_run(bytes, 9, MAX_VARINT_LEN as nat);
    assert(bytes.skip(9)[0] == bytes[9]);
    reveal_with_fuel(parse, 2);
}

} // verus!
