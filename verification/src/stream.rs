//! Chunked output: a session that hands out the bytes to write one bounded
//! chunk at a time and keeps the ledger of what has been written.

use crate::random::fill_random;
use rand::rngs::StdRng;
use vstd::arithmetic::div_mod::lemma_fundamental_div_mod;
use vstd::prelude::*;

verus! {

/// Why a stream could not be written.
#[derive(Clone, Copy, Debug, PartialEq, Eq, Structural)]
pub enum StreamError {
    /// The chunk size is zero although bytes were requested.
    InvalidChunkSize,
    /// The sink refused a chunk.
    Io,
}

/// Number of writes that emit `total` bytes in chunks of `chunk_size`: the
/// full chunks, and one more for a remainder.
pub open spec fn chunk_count(total: nat, chunk_size: nat) -> nat {
    if chunk_size == 0 {
        0
    } else if total % chunk_size > 0 {
        total / chunk_size + 1
    } else {
        total / chunk_size
    }
}

/// Length of the write with the given index, counted from zero: a full
/// chunk, then the remainder, then nothing.
pub open spec fn chunk_len(total: nat, chunk_size: nat, index: nat) -> nat {
    if chunk_size == 0 {
        0
    } else if index < total / chunk_size {
        chunk_size
    } else if index == total / chunk_size {
        total % chunk_size
    } else {
        0
    }
}

/// Sum of the lengths of the first `chunks` writes.
pub open spec fn bytes_in_chunks(total: nat, chunk_size: nat, chunks: nat) -> nat
    decreases chunks,
{
    if chunks == 0 {
        0
    } else {
        bytes_in_chunks(total, chunk_size, (chunks - 1) as nat) + chunk_len(
            total,
            chunk_size,
            (chunks - 1) as nat,
        )
    }
}

/// The first `chunks` writes emit whole chunks until the total is reached.
pub proof fn lemma_bytes_in_chunks(total: nat, chunk_size: nat, chunks: nat)
    requires
        chunk_size > 0,
    ensures
        bytes_in_chunks(total, chunk_size, chunks) == if chunks <= total / chunk_size {
            chunks * chunk_size
        } else {
            total
        },
    decreases chunks,
{
    if chunks > 0 {
        let before = (chunks - 1) as nat;
        lemma_bytes_in_chunks(total, chunk_size, before);
        if chunks <= total / chunk_size {
            assert(before * chunk_size + chunk_size == chunks * chunk_size) by (nonlinear_arith)
                requires
                    before + 1 == chunks,
            ;
        } else if before == total / chunk_size {
            lemma_fundamental_div_mod(total as int, chunk_size as int);
            assert(chunk_size * (total / chunk_size) == before * chunk_size) by (nonlinear_arith)
                requires
                    before == total / chunk_size,
            ;
        }
    }
}

/// All the writes together emit exactly the requested number of bytes.
pub proof fn lemma_all_chunks_emit_total(total: nat, chunk_size: nat)
    requires
        chunk_size > 0,
    ensures
        bytes_in_chunks(total, chunk_size, chunk_count(total, chunk_size)) == total,
{
    lemma_bytes_in_chunks(total, chunk_size, chunk_count(total, chunk_size));
    if total % chunk_size == 0 {
        lemma_fundamental_div_mod(total as int, chunk_size as int);
        assert(chunk_size * (total / chunk_size) == (total / chunk_size) * chunk_size)
            by (nonlinear_arith);
    }
}

/// A remainder is the last write and has the remainder's length, and an
/// output shorter than one chunk is that single write.
pub proof fn lemma_final_partial_chunk(total: nat, chunk_size: nat)
    requires
        chunk_size > 0,
    ensures
        total % chunk_size > 0 ==> chunk_len(
            total,
            chunk_size,
            (chunk_count(total, chunk_size) - 1) as nat,
        ) == total % chunk_size,
        0 < total < chunk_size ==> chunk_count(total, chunk_size) == 1 && chunk_len(
            total,
            chunk_size,
            0,
        ) == total,
{
    if total < chunk_size {
        lemma_fundamental_div_mod(total as int, chunk_size as int);
        assert(total / chunk_size == 0) by (nonlinear_arith)
            requires
                0 <= total < chunk_size,
        ;
    }
}

/// Every write but the ones past the end emits at least one byte, so there
/// are at most as many writes as bytes, and no prefix of them emits more
/// than the total.
pub proof fn lemma_chunks_bounded(total: nat, chunk_size: nat, chunks: nat)
    requires
        chunk_size > 0,
        chunks <= chunk_count(total, chunk_size),
    ensures
        chunk_count(total, chunk_size) <= total,
        bytes_in_chunks(total, chunk_size, chunks) <= total,
{
    let full = total / chunk_size;
    lemma_bytes_in_chunks(total, chunk_size, chunks);
    lemma_fundamental_div_mod(total as int, chunk_size as int);
    assert(chunk_size * full == full * chunk_size) by (nonlinear_arith);
    assert(full <= full * chunk_size) by (nonlinear_arith)
        requires
            chunk_size >= 1,
            full >= 0,
    ;
    if chunks <= full {
        assert(chunks * chunk_size <= full * chunk_size) by (nonlinear_arith)
            requires
                chunks <= full,
        ;
    }
}

/// What a write session is, apart from how it is stored.
pub struct SessionView {
    /// Bytes requested.
    pub total: nat,
    /// Length of a full chunk.
    pub chunk_size: nat,
    /// Whether the output is zero bytes rather than random ones.
    pub zeroed: bool,
    /// Writes that the sink has accepted.
    pub done: nat,
    /// Whether the sink has refused a write.
    pub failed: bool,
    /// The bytes of the next write.
    pub buffer: Seq<u8>,
}

impl SessionView {
    /// Number of writes the session consists of.
    pub open spec fn chunks(self) -> nat {
        chunk_count(self.total, self.chunk_size)
    }

    /// Bytes that the sink has accepted.
    pub open spec fn written(self) -> nat {
        bytes_in_chunks(self.total, self.chunk_size, self.done)
    }

    /// Length of the next write; zero once every write is done.
    pub open spec fn next_len(self) -> nat {
        chunk_len(self.total, self.chunk_size, self.done)
    }

    /// Whether every write is done.
    pub open spec fn complete(self) -> bool {
        self.done == self.chunks()
    }

    /// Whether the session still has a chunk to hand out.
    pub open spec fn active(self) -> bool {
        !self.failed && !self.complete()
    }
}

/// Whether every byte of `bytes` is zero.
pub open spec fn all_zero(bytes: Seq<u8>) -> bool {
    forall|i: int| 0 <= i < bytes.len() ==> bytes[i] == 0
}

/// The ledger of one output stream: how much is to be written, in which
/// chunks, how much the sink has taken, and the one buffer that every chunk
/// is prepared in.
pub struct WriteSession {
    total: usize,
    chunk_size: usize,
    zeroed: bool,
    full_chunks: usize,
    remainder: usize,
    done: usize,
    written: usize,
    failed: bool,
    buf: Vec<u8>,
}

impl View for WriteSession {
    type V = SessionView;

    closed spec fn view(&self) -> SessionView {
        SessionView {
            total: self.total as nat,
            chunk_size: self.chunk_size as nat,
            zeroed: self.zeroed,
            done: self.done as nat,
            failed: self.failed,
            buffer: self.buf@,
        }
    }
}

impl WriteSession {
    /// The invariant of a session: the chunk arithmetic is that of its total
    /// and chunk size, the ledger agrees with the writes done, and the buffer
    /// has the length of the next write and holds zeros in zeroed mode.
    pub closed spec fn wf(&self) -> bool {
        &&& self.chunk_size > 0 || self.total == 0
        &&& self.chunk_size > 0 ==> self.full_chunks == self.total / self.chunk_size
            && self.remainder == self.total % self.chunk_size
        &&& self.chunk_size == 0 ==> self.full_chunks == 0 && self.remainder == 0
        &&& self.done <= self@.chunks()
        &&& self.written == self@.written()
        &&& self.buf@.len() == self@.next_len()
        &&& self.zeroed ==> all_zero(self.buf@)
    }

    /// What the invariant means for the view.
    pub proof fn lemma_invariant(&self)
        requires
            self.wf(),
        ensures
            self@.chunk_size > 0 || self@.total == 0,
            self@.total <= usize::MAX,
            self@.done <= self@.chunks(),
            self@.written() <= self@.total,
            self@.complete() <==> self@.written() == self@.total,
            self@.buffer.len() == self@.next_len(),
            self@.next_len() <= self@.chunk_size,
            self@.zeroed ==> all_zero(self@.buffer),
    {
        if self.chunk_size > 0 {
            let total = self.total as nat;
            let size = self.chunk_size as nat;
            lemma_bytes_in_chunks(total, size, self.done as nat);
            lemma_fundamental_div_mod(total as int, size as int);
            assert(size * (total / size) == (total / size) * size) by (nonlinear_arith);
            if self.done <= total / size {
                assert(self.done * size <= (total / size) * size) by (nonlinear_arith)
                    requires
                        self.done <= total / size,
                ;
                if self.done < total / size {
                    assert(self.done * size + size <= (total / size) * size) by (nonlinear_arith)
                        requires
                            self.done < total / size,
                    ;
                }
            }
        } else {
            reveal_with_fuel(bytes_in_chunks, 1);
        }
    }

    /// Opens a session for `total` bytes in chunks of `chunk_size`. A chunk
    /// size of zero is refused unless nothing at all is to be written.
    pub fn new(total: usize, chunk_size: usize, zeroed: bool) -> (r: Result<
        WriteSession,
        StreamError,
    >)
        ensures
            r is Err <==> chunk_size == 0 && total > 0,
            r matches Err(e) ==> e == StreamError::InvalidChunkSize,
            r matches Ok(s) ==> s.wf() && s@.total == total && s@.chunk_size == chunk_size
                && s@.zeroed == zeroed && s@.done == 0 && !s@.failed,
    {
        if chunk_size == 0 {
            if total > 0 {
                return Err(StreamError::InvalidChunkSize);
            }
            return Ok(
                WriteSession {
                    total,
                    chunk_size,
                    zeroed,
                    full_chunks: 0,
                    remainder: 0,
                    done: 0,
                    written: 0,
                    failed: false,
                    buf: Vec::new(),
                },
            );
        }
        let full_chunks = total / chunk_size;
        let remainder = total % chunk_size;
        let first = if full_chunks > 0 {
            chunk_size
        } else {
            remainder
        };
        let buf = vec![0u8; first];
        Ok(
            WriteSession {
                total,
                chunk_size,
                zeroed,
                full_chunks,
                remainder,
                done: 0,
                written: 0,
                failed: false,
                buf,
            },
        )
    }

    /// Prepares the next chunk in the buffer and says whether there is one.
    /// In zeroed mode the buffer is left as it is; otherwise every byte of it
    /// is drawn afresh from `rng`. Nothing is prepared once the session is
    /// complete or the sink has failed.
    pub fn next_chunk(&mut self, rng: &mut StdRng) -> (ready: bool)
        requires
            old(self).wf(),
        ensures
            final(self).wf(),
            ready == old(self)@.active(),
            final(self)@.total == old(self)@.total,
            final(self)@.chunk_size == old(self)@.chunk_size,
            final(self)@.zeroed == old(self)@.zeroed,
            final(self)@.done == old(self)@.done,
            final(self)@.failed == old(self)@.failed,
            final(self)@.buffer.len() == old(self)@.next_len(),
            old(self)@.zeroed || !ready ==> final(self)@.buffer == old(self)@.buffer,
            old(self)@.zeroed ==> all_zero(final(self)@.buffer),
    {
        if self.failed || !self.has_more() {
            return false;
        }
        if !self.zeroed {
            fill_random(rng, &mut self.buf);
        }
        true
    }

    /// The bytes of the next write, as `next_chunk` prepared them.
    pub fn chunk(&self) -> (bytes: &[u8])
        ensures
            bytes@ == self@.buffer,
    {
        self.buf.as_slice()
    }

    /// Takes note of what became of the chunk handed out last. An accepted
    /// chunk advances the ledger and shortens the buffer to the length of
    /// the write that follows. A refused chunk ends the session: from then
    /// on every call reports the failure and changes nothing.
    pub fn record(&mut self, accepted: bool) -> (r: Result<(), StreamError>)
        requires
            old(self).wf(),
        ensures
            final(self).wf(),
            final(self)@.total == old(self)@.total,
            final(self)@.chunk_size == old(self)@.chunk_size,
            final(self)@.zeroed == old(self)@.zeroed,
            final(self)@.failed == (old(self)@.failed || (!accepted && !old(self)@.complete())),
            final(self)@.done == if accepted && old(self)@.active() {
                old(self)@.done + 1
            } else {
                old(self)@.done
            },
            final(self)@.written() == if accepted && old(self)@.active() {
                old(self)@.written() + old(self)@.next_len()
            } else {
                old(self)@.written()
            },
            r == if final(self)@.failed {
                Err::<(), StreamError>(StreamError::Io)
            } else {
                Ok::<(), StreamError>(())
            },
    {
        if self.failed {
            return Err(StreamError::Io);
        }
        if !self.has_more() {
            return Ok(());
        }
        if !accepted {
            self.failed = true;
            return Err(StreamError::Io);
        }
        let len = self.buf.len();
        proof {
            let total = self.total as nat;
            let size = self.chunk_size as nat;
            lemma_chunks_bounded(total, size, (self.done + 1) as nat);
        }
        self.written = self.written + len;
        self.done = self.done + 1;
        let next = if self.done < self.full_chunks {
            self.chunk_size
        } else if self.done == self.full_chunks {
            self.remainder
        } else {
            0
        };
        self.buf.truncate(next);
        Ok(())
    }

    /// Whether a write is still outstanding.
    fn has_more(&self) -> (more: bool)
        requires
            self.wf(),
        ensures
            more == !self@.complete(),
    {
        self.done < self.full_chunks || (self.done == self.full_chunks && self.remainder > 0)
    }

    /// Whether every chunk has been written.
    pub fn is_complete(&self) -> (complete: bool)
        requires
            self.wf(),
        ensures
            complete == self@.complete(),
            complete <==> self@.written() == self@.total,
    {
        proof {
            self.lemma_invariant();
        }
        !self.has_more()
    }

    /// Number of bytes that the sink has accepted so far.
    pub fn bytes_written(&self) -> (n: usize)
        requires
            self.wf(),
        ensures
            n == self@.written(),
    {
        self.written
    }
}

/// Writes `total` bytes to an in-memory sink, one chunk of at most
/// `chunk_size` bytes at a time: zeros in zeroed mode, bytes drawn from
/// `rng` otherwise. What the sink held before is kept in front.
pub fn write_stream(
    total: usize,
    chunk_size: usize,
    zeroed: bool,
    rng: &mut StdRng,
    sink: &mut Vec<u8>,
) -> (r: Result<(), StreamError>)
    requires
        old(sink)@.len() + total <= usize::MAX,
    ensures
        r is Err <==> chunk_size == 0 && total > 0,
        r matches Err(e) ==> e == StreamError::InvalidChunkSize && final(sink)@ == old(sink)@,
        r is Ok ==> final(sink)@.len() == old(sink)@.len() + total && final(sink)@.take(
            old(sink)@.len() as int,
        ) == old(sink)@ && (zeroed ==> all_zero(final(sink)@.skip(old(sink)@.len() as int))),
{
    let mut session = match WriteSession::new(total, chunk_size, zeroed) {
        Ok(session) => session,
        Err(e) => {
            return Err(e);
        },
    };
    let ghost before = sink@;
    proof {
        reveal_with_fuel(bytes_in_chunks, 1);
        assert(sink@.take(before.len() as int) =~= before);
    }
    while session.next_chunk(rng)
        invariant
            session.wf(),
            session@.total == total,
            session@.chunk_size == chunk_size,
            session@.zeroed == zeroed,
            !session@.failed,
            sink@.len() == before.len() + session@.written(),
            sink@.take(before.len() as int) == before,
            zeroed ==> all_zero(sink@.skip(before.len() as int)),
        decreases session@.chunks() - session@.done,
    {
        let ghost so_far = sink@;
        proof {
            session.lemma_invariant();
            lemma_chunks_bounded(
                total as nat,
                chunk_size as nat,
                (session@.done + 1) as nat,
            );
        }
        sink.extend_from_slice(session.chunk());
        proof {
            assert(sink@.take(before.len() as int) =~= so_far.take(before.len() as int));
            if zeroed {
                let tail = sink@.skip(before.len() as int);
                assert forall|i: int| 0 <= i < tail.len() implies tail[i] == 0 by {
                    if i < so_far.len() - before.len() {
                        assert(tail[i] == so_far.skip(before.len() as int)[i]);
                    } else {
                        assert(tail[i] == session@.buffer[i - (so_far.len() - before.len())]);
                    }
                }
            }
        }
        let _ = session.record(true);
    }
    proof {
        session.lemma_invariant();
    }
    Ok(())
}

} // verus!
