//! The XOR cipher engine: whole-buffer and chunk-by-chunk.

use vstd::prelude::*;

use crate::digest::{content_hash_of, StreamDigest};
use crate::error::VaultError;

verus! {

/// Bytes of `a` combined position by position with the bytes of `b` by
/// exclusive-or; as long as `a`.
pub open spec fn xor_seq(a: Seq<u8>, b: Seq<u8>) -> Seq<u8> {
    Seq::new(a.len(), |i: int| a[i] ^ b[i])
}

proof fn lemma_xor_byte_cancels(x: u8, y: u8)
    ensures
        (x ^ y) ^ y == x,
{
    assert((x ^ y) ^ y == x) by (bit_vector);
}

/// Applying the same pad bytes twice gives back the input: for every plaintext
/// `p` and every pad `r` at least as long, `p ^ r[..|p|] ^ r[..|p|] == p`.
pub proof fn lemma_xor_round_trip(p: Seq<u8>, r: Seq<u8>)
    requires
        r.len() >= p.len(),
    ensures
        xor_seq(xor_seq(p, r.take(p.len() as int)), r.take(p.len() as int)) == p,
{
    let k = r.take(p.len() as int);
    let c = xor_seq(p, k);
    assert forall|i: int| 0 <= i < p.len() implies #[trigger] xor_seq(c, k)[i] == p[i] by {
        lemma_xor_byte_cancels(p[i], k[i]);
    }
    assert(xor_seq(c, k) =~= p);
}

/// XOR distributes over appending input and the matching pad bytes.
pub proof fn lemma_xor_append(a: Seq<u8>, c: Seq<u8>, s: Seq<u8>)
    requires
        a.len() + c.len() <= s.len(),
    ensures
        xor_seq(a + c, s.take((a.len() + c.len()) as int)) == xor_seq(a, s.take(a.len() as int)) + xor_seq(
            c,
            s.subrange(a.len() as int, (a.len() + c.len()) as int),
        ),
{
    assert(xor_seq(a + c, s.take((a.len() + c.len()) as int)) =~= xor_seq(a, s.take(a.len() as int))
        + xor_seq(c, s.subrange(a.len() as int, (a.len() + c.len()) as int)));
}

/// Exclusive-or of two equally long byte slices; it both encrypts and decrypts.
pub fn xor(a: &[u8], b: &[u8]) -> (r: Vec<u8>)
    requires
        a@.len() == b@.len(),
    ensures
        r@ == xor_seq(a@, b@),
{
    let mut out: Vec<u8> = Vec::with_capacity(a.len());
    let mut i: usize = 0;
    while i < a.len()
        invariant
            0 <= i <= a@.len(),
            a@.len() == b@.len(),
            out@ == xor_seq(a@.take(i as int), b@),
        decreases a@.len() - i,
    {
        out.push(a[i] ^ b[i]);
        i += 1;
        assert(out@ =~= xor_seq(a@.take(i as int), b@));
    }
    assert(a@.take(a@.len() as int) =~= a@);
    out
}

/// Size of the chunks in which a stream is processed.
pub const CHUNK_SIZE: usize = 4096;

/// XORs `chunk` with `pad[offset..offset + chunk.len()]`.
fn xor_at(chunk: &[u8], pad: &[u8], offset: usize) -> (r: Vec<u8>)
    requires
        offset + chunk@.len() <= pad@.len(),
    ensures
        r@ == xor_seq(chunk@, pad@.subrange(offset as int, offset + chunk@.len())),
{
    let pad_len = pad.len();
    let mut out: Vec<u8> = Vec::with_capacity(chunk.len());
    let mut i: usize = 0;
    while i < chunk.len()
        invariant
            0 <= i <= chunk@.len(),
            pad_len == pad@.len(),
            offset + chunk@.len() <= pad@.len(),
            out@ == xor_seq(
                chunk@.take(i as int),
                pad@.subrange(offset as int, offset + chunk@.len()),
            ),
        decreases chunk@.len() - i,
    {
        out.push(chunk[i] ^ pad[offset + i]);
        i += 1;
        assert(out@ =~= xor_seq(
            chunk@.take(i as int),
            pad@.subrange(offset as int, offset + chunk@.len()),
        ));
    }
    assert(chunk@.take(chunk@.len() as int) =~= chunk@);
    out
}

/// Runs a whole input through the pad segment in chunks of `CHUNK_SIZE`
/// bytes. The output is the input XOR the first bytes of the segment; an input
/// longer than the segment is refused.
pub fn process_stream(input: &[u8], pad_segment: &[u8]) -> (r: Result<Vec<u8>, VaultError>)
    ensures
        input@.len() > pad_segment@.len() ==> r == Err::<Vec<u8>, VaultError>(
            (VaultError::InputLongerThanSegment { segment_length: pad_segment@.len() as u64 }),
        ),
        input@.len() <= pad_segment@.len() ==> (r matches Ok(out) && out@ == xor_seq(
            input@,
            pad_segment@.take(input@.len() as int),
        )),
{
    let mut out: Vec<u8> = Vec::new();
    let mut done: usize = 0;
    while done < input.len()
        invariant
            0 <= done <= input@.len(),
            done <= pad_segment@.len(),
            out@ == xor_seq(input@.take(done as int), pad_segment@.take(done as int)),
        decreases input@.len() - done,
    {
        let n = if input.len() - done < CHUNK_SIZE {
            input.len() - done
        } else {
            CHUNK_SIZE
        };
        if n > pad_segment.len() - done {
            return Err(
                VaultError::InputLongerThanSegment { segment_length: pad_segment.len() as u64 },
            );
        }
        let chunk = slice_range(input, done, done + n);
        let piece = xor_at(chunk, pad_segment, done);
        proof {
            lemma_xor_append(input@.take(done as int), chunk@, pad_segment@);
            assert(input@.take(done as int) + chunk@ =~= input@.take(done + n));
        }
        let mut piece = piece;
        out.append(&mut piece);
        done = done + n;
    }
    proof {
        assert(input@.take(done as int) =~= input@);
    }
    Ok(out)
}

fn slice_range(s: &[u8], lo: usize, hi: usize) -> (r: &[u8])
    requires
        lo <= hi <= s@.len(),
    ensures
        r@ == s@.subrange(lo as int, hi as int),
{
    &s[lo..hi]
}

/// The cipher engine for one pad segment: the segment is held whole, the
/// stream passes through chunk by chunk, and the content hash of the output
/// can be computed on the way.
pub struct CipherStream {
    segment: Vec<u8>,
    processed: usize,
    digest: Option<StreamDigest>,
    input: Ghost<Seq<u8>>,
}

impl CipherStream {
    /// The pad segment.
    pub closed spec fn segment_view(&self) -> Seq<u8> {
        self.segment@
    }

    /// Every input byte accepted so far.
    pub closed spec fn consumed(&self) -> Seq<u8> {
        self.input@
    }

    /// The content hash of the output is being computed.
    pub closed spec fn hashing(&self) -> bool {
        self.digest is Some
    }

    /// Every output byte produced so far.
    pub open spec fn produced(&self) -> Seq<u8> {
        xor_seq(self.consumed(), self.segment_view().take(self.consumed().len() as int))
    }

    /// Internal consistency of the engine.
    pub closed spec fn wf(&self) -> bool {
        &&& self.processed == self.input@.len()
        &&& self.processed <= self.segment@.len()
        &&& self.digest matches Some(d) ==> d.absorbed() == self.produced()
    }

    /// An engine over the segment that has processed nothing.
    pub fn new(segment: Vec<u8>, hash_output: bool) -> (r: CipherStream)
        ensures
            r.wf(),
            r.segment_view() == segment@,
            r.consumed() == Seq::<u8>::empty(),
            r.hashing() == hash_output,
    {
        let digest = if hash_output {
            Some(StreamDigest::new())
        } else {
            None
        };
        let r = CipherStream { segment, processed: 0, digest, input: Ghost(Seq::empty()) };
        assert(r.produced() =~= Seq::<u8>::empty());
        r
    }

    /// Number of input bytes accepted so far.
    pub fn processed_len(&self) -> (r: usize)
        requires
            self.wf(),
        ensures
            r == self.consumed().len(),
    {
        self.processed
    }

    /// Transforms the next chunk with the matching pad bytes. A chunk that
    /// would run past the end of the segment is refused and nothing changes.
    pub fn process_chunk(&mut self, chunk: &[u8]) -> (r: Result<Vec<u8>, VaultError>)
        requires
            old(self).wf(),
        ensures
            final(self).wf(),
            final(self).segment_view() == old(self).segment_view(),
            final(self).hashing() == old(self).hashing(),
            old(self).consumed().len() + chunk@.len() > old(self).segment_view().len() ==> {
                &&& r == Err::<Vec<u8>, VaultError>(
                    (VaultError::InputLongerThanSegment {
                        segment_length: old(self).segment_view().len() as u64,
                    }),
                )
                &&& final(self).consumed() == old(self).consumed()
            },
            old(self).consumed().len() + chunk@.len() <= old(self).segment_view().len() ==> {
                &&& r matches Ok(out)
                &&& out@ == xor_seq(
                    chunk@,
                    old(self).segment_view().subrange(
                        old(self).consumed().len() as int,
                        (old(self).consumed().len() + chunk@.len()) as int,
                    ),
                )
                &&& final(self).consumed() == old(self).consumed() + chunk@
            },
    {
        if chunk.len() > self.segment.len() - self.processed {
            return Err(
                VaultError::InputLongerThanSegment { segment_length: self.segment.len() as u64 },
            );
        }
        let out = xor_at(chunk, self.segment.as_slice(), self.processed);
        proof {
            lemma_xor_append(self.input@, chunk@, self.segment@);
        }
        match &mut self.digest {
            Some(d) => {
                d.update(out.as_slice());
            },
            None => {},
        }
        self.processed = self.processed + chunk.len();
        self.input = Ghost(self.input@ + chunk@);
        Ok(out)
    }

    /// Ends the stream; returns the content hash of all output when it was
    /// being computed.
    pub fn finish(self) -> (r: Option<String>)
        requires
            self.wf(),
        ensures
            self.hashing() ==> (r matches Some(h) && h@ == content_hash_of(self.produced())),
            !self.hashing() ==> r is None,
    {
        match self.digest {
            Some(d) => Some(d.finish()),
            None => None,
        }
    }
}

} // verus!
