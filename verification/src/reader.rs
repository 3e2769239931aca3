//! Incremental request-header acquisition.
//!
//! A connection is probed in fixed windows of [`PROBE_CHUNK`] bytes: the
//! caller peeks at the stream (observing without consuming), hands the
//! observed chunk to [`HeaderReader::absorb`], and then consumes exactly
//! that many bytes from the transport. A chunk shorter than the window
//! means the stream has gone quiet, so the reader declares itself
//! complete. A chunk of exactly [`PROBE_CHUNK`] bytes never completes the
//! reader: when the available bytes are a positive multiple of the window,
//! one extra (empty) probe cycle is spent to detect the end.

use vstd::prelude::*;

verus! {

/// Size in bytes of one probe window.
pub const PROBE_CHUNK: usize = 25;

/// Number of probe cycles the reader spends before declaring a stream of
/// `n` currently-available bytes drained: one cycle per full window, plus
/// the final short (possibly empty) cycle.
pub open spec fn probe_cycles(n: nat) -> nat
    decreases n,
{
    if n < PROBE_CHUNK {
        1
    } else {
        1 + probe_cycles((n - PROBE_CHUNK) as nat)
    }
}

/// Accumulates probed chunks of one request's header bytes.
pub struct HeaderReader {
    buf: Vec<u8>,
    done: bool,
}

impl HeaderReader {
    /// Everything absorbed so far, in arrival order.
    pub closed spec fn collected(&self) -> Seq<u8> {
        self.buf@
    }

    /// Whether a short chunk has signalled the end of the available bytes.
    pub closed spec fn complete(&self) -> bool {
        self.done
    }

    /// A fresh reader with nothing collected.
    pub fn new() -> (r: HeaderReader)
        ensures
            r.collected() == Seq::<u8>::empty(),
            !r.complete(),
    {
        HeaderReader { buf: Vec::new(), done: false }
    }

    /// Whether the reader has seen the final short chunk.
    pub fn is_complete(&self) -> (r: bool)
        ensures
            r == self.complete(),
    {
        self.done
    }

    /// Appends one probed chunk. A chunk shorter than the probe window is
    /// the final one; a full window leaves the reader expecting more.
    pub fn absorb(&mut self, chunk: &[u8])
        requires
            !old(self).complete(),
            chunk@.len() <= PROBE_CHUNK,
        ensures
            final(self).collected() == old(self).collected() + chunk@,
            final(self).complete() == (chunk@.len() < PROBE_CHUNK),
    {
        let mut i: usize = 0;
        while i < chunk.len()
            invariant
                i <= chunk@.len(),
                self.buf@ == old(self).buf@ + chunk@.subrange(0, i as int),
                self.done == old(self).done,
            decreases chunk@.len() - i,
        {
            self.buf.push(chunk[i]);
            assert(self.buf@ =~= old(self).buf@ + chunk@.subrange(0, i + 1 as int));
            i = i + 1;
        }
        assert(chunk@.subrange(0, chunk@.len() as int) =~= chunk@);
        if chunk.len() < PROBE_CHUNK {
            self.done = true;
        }
    }

    /// Hands the collected bytes over for parsing.
    pub fn into_bytes(self) -> (r: Vec<u8>)
        ensures
            r@ == self.collected(),
    {
        self.buf
    }
}

/// Drains the bytes currently available on a stream exactly as the
/// per-connection loop does: peek a window, absorb it, repeat until a
/// short window arrives. Returns the collected bytes together with the
/// number of probe cycles spent.
pub fn collect_available(stream: &[u8]) -> (r: (Vec<u8>, usize))
    requires
        stream@.len() + PROBE_CHUNK < usize::MAX,
    ensures
        r.0@ == stream@,
        r.1 == probe_cycles(stream@.len()),
{
    let mut reader = HeaderReader::new();
    let mut consumed: usize = 0;
    let mut cycles: usize = 0;
    loop
        invariant
            consumed <= stream@.len(),
            stream@.len() + PROBE_CHUNK < usize::MAX,
            reader.collected() == stream@.subrange(0, consumed as int),
            !reader.complete(),
            cycles + probe_cycles((stream@.len() - consumed) as nat) == probe_cycles(
                stream@.len(),
            ),
            cycles <= consumed,
        decreases stream@.len() - consumed + 1,
    {
        let remaining = stream.len() - consumed;
        let take = if remaining < PROBE_CHUNK {
            remaining
        } else {
            PROBE_CHUNK
        };
        let chunk = copy_range(stream, consumed, consumed + take);
        reader.absorb(chunk.as_slice());
        proof {
            assert(stream@.subrange(0, consumed as int) + stream@.subrange(
                consumed as int,
                (consumed + take) as int,
            ) =~= stream@.subrange(0, (consumed + take) as int));
        }
        consumed = consumed + take;
        cycles = cycles + 1;
        if reader.is_complete() {
            proof {
                assert(stream@.subrange(0, stream@.len() as int) =~= stream@);
            }
            return (reader.into_bytes(), cycles);
        }
    }
}

/// Copies `s[from..to]` into a fresh vector.
pub fn copy_range(s: &[u8], from: usize, to: usize) -> (r: Vec<u8>)
    requires
        from <= to <= s@.len(),
    ensures
        r@ == s@.subrange(from as int, to as int),
{
    let mut r: Vec<u8> = Vec::new();
    let mut i: usize = from;
    while i < to
        invariant
            from <= i <= to <= s@.len(),
            r@ == s@.subrange(from as int, i as int),
        decreases to - i,
    {
        r.push(s[i]);
        assert(r@ =~= s@.subrange(from as int, i + 1 as int));
        i = i + 1;
    }
    r
}

/// A probe window that comes back full never ends acquisition: when the
/// available bytes are a positive multiple of the probe window, the reader
/// spends exactly one cycle more than the number of full windows, so the
/// end of the stream is detected by a dedicated empty probe rather than
/// guessed from a window-aligned boundary.
pub proof fn lemma_framing_termination(n: nat)
    requires
        n > 0,
        n % (PROBE_CHUNK as nat) == 0,
    ensures
        probe_cycles(n) == n / (PROBE_CHUNK as nat) + 1,
    decreases n,
{
    let k = PROBE_CHUNK as nat;
    if n < k {
        assert(n == 0) by {
            assert(n % k == n) by (nonlinear_arith)
                requires
                    0 <= n < k,
            ;
        }
    } else {
        let m = (n - k) as nat;
        assert(m % k == 0 && m / k + 1 == n / k) by (nonlinear_arith)
            requires
                n >= k,
                k > 0,
                n % k == 0,
                m == n - k,
        ;
        if m == 0 {
            assert(probe_cycles(m) == 1);
            assert(m / k == 0) by (nonlinear_arith)
                requires
                    m == 0,
                    k > 0,
            ;
        } else {
            lemma_framing_termination(m);
        }
    }
}

/// The bytes a reader ends up with after absorbing a sequence of chunks,
/// in order, starting from `init`.
pub open spec fn absorbed(init: Seq<u8>, chunks: Seq<Seq<u8>>) -> Seq<u8>
    decreases chunks.len(),
{
    if chunks.len() == 0 {
        init
    } else {
        absorbed(init + chunks[0], chunks.drop_first())
    }
}

/// Round-trip framing: however a header is fragmented into probed chunks,
/// absorbing the fragments in order reconstructs exactly the original byte
/// sequence, i.e. their concatenation.
pub proof fn lemma_round_trip_framing(init: Seq<u8>, chunks: Seq<Seq<u8>>)
    ensures
        absorbed(init, chunks) == init + chunks.flatten(),
    decreases chunks.len(),
{
    if chunks.len() == 0 {
        assert(chunks.flatten() == Seq::<Seq<u8>>::empty().flatten());
        assert(absorbed(init, chunks) =~= init + chunks.flatten());
    } else {
        lemma_round_trip_framing(init + chunks[0], chunks.drop_first());
        assert(chunks.flatten() == chunks[0] + chunks.drop_first().flatten());
        assert((init + chunks[0]) + chunks.drop_first().flatten() =~= init + (chunks[0]
            + chunks.drop_first().flatten()));
    }
}

} // verus!
