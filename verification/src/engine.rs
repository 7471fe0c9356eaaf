//! The connection engine's verified core: an owned accumulation buffer and
//! the decode step that drives it.
//!
//! The engine never touches a socket. Its owner appends whatever bytes the
//! transport produced (`feed`), asks for the next reply (`try_next`), and
//! reports end of stream (`on_eof`). Replies come back in exactly the order
//! their terminating lines appear in the byte stream, and a consumed line
//! is trimmed from the buffer byte for byte, so decoding is insensitive to
//! how the stream was chunked — `lemma_chunking_insensitive` states that
//! law precisely.

use vstd::prelude::*;

use crate::frame::FrameError;
use crate::frame::recv::Recv;
use crate::frame::recv::ReplyView;
use crate::frame::recv::crlf_at;
use crate::frame::recv::decode_line;
use crate::frame::recv::lemma_first_crlf_spec;
use crate::frame::recv::spec_first_crlf;

verus! {

/// Owns the receive buffer of one connection. Bytes accumulate at the end
/// and are consumed from the front, one full line at a time.
pub struct Engine {
    buffer: Vec<u8>,
}

impl View for Engine {
    type V = Seq<u8>;

    closed spec fn view(&self) -> Seq<u8> {
        self.buffer@
    }
}

impl Engine {
    /// A fresh engine with an empty buffer.
    pub fn new() -> (e: Engine)
        ensures
            e@ == Seq::<u8>::empty(),
    {
        Engine { buffer: Vec::new() }
    }

    /// How many bytes are currently buffered.
    pub fn buffered(&self) -> (n: usize)
        ensures
            n == self@.len(),
    {
        self.buffer.len()
    }

    /// Appends bytes the transport produced to the end of the buffer.
    pub fn feed(&mut self, chunk: &[u8])
        ensures
            final(self)@ == old(self)@ + chunk@,
    {
        let ghost orig = self.buffer@;
        let mut i: usize = 0;
        while i < chunk.len()
            invariant
                i <= chunk@.len(),
                self.buffer@ =~= orig + chunk@.take(i as int),
            decreases chunk@.len() - i,
        {
            self.buffer.push(*vstd::slice::slice_index_get(chunk, i));
            proof {
                assert(orig + chunk@.take(i as int) + seq![chunk@[i as int]] =~= orig + chunk@.take(
                    i + 1 as int,
                ));
            }
            i = i + 1;
        }
        proof {
            assert(orig + chunk@.take(chunk@.len() as int) =~= orig + chunk@);
        }
    }

    /// Tries to decode the first buffered line. When a full line is
    /// present it is consumed — trimmed from the buffer byte for byte —
    /// whether it decoded to a reply or was invalid; when none is present
    /// the buffer stays as it was and more bytes are needed.
    pub fn try_next(&mut self) -> (r: Result<Recv, FrameError>)
        ensures
            match spec_first_crlf(old(self)@) {
                None => final(self)@ == old(self)@ && r matches Err(FrameError::Incomplete),
                Some(i) => final(self)@ == old(self)@.skip(i + 2) && (match decode_line(
                    old(self)@.take(i),
                ) {
                    Some(rv) => r matches Ok(rep) && rep@ == rv,
                    None => r matches Err(FrameError::Invalid),
                }),
            },
    {
        let consumed = match Recv::check(self.buffer.as_slice()) {
            Ok(n) => n,
            Err(e) => {
                return Err(e);
            },
        };
        proof {
            lemma_first_crlf_spec(self.buffer@);
        }
        let rep = Recv::parse(self.buffer.as_slice());
        let len = self.buffer.len();
        let rest = vstd::slice::slice_to_vec(
            vstd::slice::slice_subrange(self.buffer.as_slice(), consumed, len),
        );
        self.buffer = rest;
        match rep {
            Ok(rep) => Ok(rep),
            Err(_) => Err(FrameError::Invalid),
        }
    }

    /// The verdict on a zero-byte read (the peer closed the connection):
    /// with an empty buffer the shutdown was clean and stands for the
    /// reply `Ended("Remote")`; with buffered bytes a partial frame was in
    /// flight and the connection was truncated.
    pub fn on_eof(&self) -> (r: Result<Recv, FrameError>)
        ensures
            self@.len() == 0 ==> (r matches Ok(rep) && rep@ == ReplyView::Ended("Remote"@)),
            self@.len() != 0 ==> (r matches Err(FrameError::Truncated)),
    {
        if self.buffer.is_empty() {
            Ok(Recv::Ended("Remote".to_owned()))
        } else {
            Err(FrameError::Truncated)
        }
    }
}

/// Every decode outcome a byte stream yields, in order: one entry per
/// CRLF-terminated line, `None` standing for an invalid line.
pub open spec fn spec_outcomes(stream: Seq<u8>) -> Seq<Option<ReplyView>>
    decreases stream.len(),
    via spec_outcomes_decreases
{
    match spec_first_crlf(stream) {
        None => Seq::empty(),
        Some(i) => seq![decode_line(stream.take(i))] + spec_outcomes(stream.skip(i + 2)),
    }
}

#[via_fn]
proof fn spec_outcomes_decreases(stream: Seq<u8>) {
    lemma_first_crlf_spec(stream);
}

/// The bytes left after every full line of the stream is consumed: the
/// trailing partial line, if any.
pub open spec fn spec_leftover(stream: Seq<u8>) -> Seq<u8>
    decreases stream.len(),
    via spec_leftover_decreases
{
    match spec_first_crlf(stream) {
        None => stream,
        Some(i) => spec_leftover(stream.skip(i + 2)),
    }
}

#[via_fn]
proof fn spec_leftover_decreases(stream: Seq<u8>) {
    lemma_first_crlf_spec(stream);
}

/// Appending bytes to a stream whose first line is already complete moves
/// neither that line nor its terminator.
proof fn lemma_first_crlf_append(a: Seq<u8>, b: Seq<u8>)
    requires
        spec_first_crlf(a) is Some,
    ensures
        spec_first_crlf(a + b) == spec_first_crlf(a),
{
    lemma_first_crlf_spec(a);
    lemma_first_crlf_spec(a + b);
    let i = spec_first_crlf(a)->0;
    assert((a + b)[i] == a[i]);
    assert((a + b)[i + 1] == a[i + 1]);
    assert(crlf_at(a + b, i));
    match spec_first_crlf(a + b) {
        None => {
            assert(false);
        },
        Some(n) => {
            if n < i {
                assert(crlf_at(a, n));
                assert(false);
            } else if i < n {
                assert(false);
            }
        },
    }
}

/// Draining one stream and then continuing with more bytes decodes the
/// same outcomes as draining the concatenation, with the same leftover.
proof fn lemma_outcomes_append(a: Seq<u8>, b: Seq<u8>)
    ensures
        spec_outcomes(a + b) =~= spec_outcomes(a) + spec_outcomes(spec_leftover(a) + b),
        spec_leftover(a + b) == spec_leftover(spec_leftover(a) + b),
    decreases a.len(),
{
    lemma_first_crlf_spec(a);
    match spec_first_crlf(a) {
        None => {
            assert(spec_leftover(a) + b =~= a + b);
            assert(spec_outcomes(a) =~= Seq::empty());
            assert(Seq::empty() + spec_outcomes(a + b) =~= spec_outcomes(a + b));
        },
        Some(i) => {
            lemma_first_crlf_append(a, b);
            assert((a + b).take(i) =~= a.take(i));
            assert((a + b).skip(i + 2) =~= a.skip(i + 2) + b);
            lemma_outcomes_append(a.skip(i + 2), b);
            assert(spec_outcomes(a + b) =~= seq![decode_line(a.take(i))] + spec_outcomes(
                a.skip(i + 2) + b,
            ));
            assert(seq![decode_line(a.take(i))] + (spec_outcomes(a.skip(i + 2)) + spec_outcomes(
                spec_leftover(a.skip(i + 2)) + b,
            )) =~= (seq![decode_line(a.take(i))] + spec_outcomes(a.skip(i + 2))) + spec_outcomes(
                spec_leftover(a) + b,
            ));
        },
    }
}

/// Feeding a byte stream split at an arbitrary offset — first one part,
/// draining it, then the rest — yields exactly the outcomes and leftover
/// of feeding the whole stream at once: decoding is insensitive to how
/// the transport chunks its reads.
pub proof fn lemma_chunking_insensitive(stream: Seq<u8>, k: int)
    requires
        0 <= k <= stream.len(),
    ensures
        spec_outcomes(stream.take(k)) + spec_outcomes(
            spec_leftover(stream.take(k)) + stream.skip(k),
        ) =~= spec_outcomes(stream),
        spec_leftover(spec_leftover(stream.take(k)) + stream.skip(k)) == spec_leftover(stream),
{
    lemma_outcomes_append(stream.take(k), stream.skip(k));
    assert(stream.take(k) + stream.skip(k) =~= stream);
}

} // verus!
