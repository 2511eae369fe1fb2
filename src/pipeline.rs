//! Encryption and decryption end to end, from a plan and the pad bytes
//! read for it to the recorded state.

use vstd::prelude::*;

use crate::cipher::{lemma_xor_append, xor_seq, CipherStream, CHUNK_SIZE};
use crate::digest::content_hash_of;
use crate::error::VaultError;
use crate::vault::{
    noted, recorded, DecryptPlan, DecryptRecord, EncryptOutcome, EncryptPlan, VaultState,
};

verus! {

fn start_stream(segment: Vec<u8>, length: u64, hash_output: bool) -> (r: Result<CipherStream, VaultError>)
    ensures
        segment@.len() != length ==> r == Err::<CipherStream, VaultError>(
            (VaultError::PadReadError { wanted: length, got: segment@.len() as u64 }),
        ),
        segment@.len() == length ==> (r matches Ok(s) && s.wf() && s.segment_view() == segment@
            && s.consumed() == Seq::<u8>::empty() && s.hashing() == hash_output),
{
    if segment.len() as u64 != length {
        return Err(VaultError::PadReadError { wanted: length, got: segment.len() as u64 });
    }
    Ok(CipherStream::new(segment, hash_output))
}

impl EncryptPlan {
    /// The cipher engine for this plan, hashing its output. `segment` is what
    /// was read from the pad; fewer or more bytes than planned is a read error.
    pub fn start_stream(&self, segment: Vec<u8>) -> (r: Result<CipherStream, VaultError>)
        ensures
            segment@.len() != self.length ==> r == Err::<CipherStream, VaultError>(
                (VaultError::PadReadError { wanted: self.length, got: segment@.len() as u64 }),
            ),
            segment@.len() == self.length ==> (r matches Ok(s) && s.wf() && s.segment_view()
                == segment@ && s.consumed() == Seq::<u8>::empty() && s.hashing()),
    {
        start_stream(segment, self.length, true)
    }
}

impl DecryptPlan {
    /// The cipher engine for this plan, without hashing. `segment` is what
    /// was read from the pad; fewer or more bytes than planned is a read error.
    pub fn start_stream(&self, segment: Vec<u8>) -> (r: Result<CipherStream, VaultError>)
        ensures
            segment@.len() != self.length ==> r == Err::<CipherStream, VaultError>(
                (VaultError::PadReadError { wanted: self.length, got: segment@.len() as u64 }),
            ),
            segment@.len() == self.length ==> (r matches Ok(s) && s.wf() && s.segment_view()
                == segment@ && s.consumed() == Seq::<u8>::empty() && !s.hashing()),
    {
        start_stream(segment, self.length, false)
    }
}

/// Runs the whole input through a fresh engine, chunk by chunk.
fn run_stream(stream: &mut CipherStream, input: &[u8]) -> (out: Vec<u8>)
    requires
        old(stream).wf(),
        old(stream).consumed() == Seq::<u8>::empty(),
        input@.len() <= old(stream).segment_view().len(),
    ensures
        final(stream).wf(),
        final(stream).segment_view() == old(stream).segment_view(),
        final(stream).hashing() == old(stream).hashing(),
        final(stream).consumed() == input@,
        out@ == final(stream).produced(),
{
    let mut out: Vec<u8> = Vec::new();
    let mut done: usize = 0;
    proof {
        assert(stream.produced() =~= Seq::<u8>::empty());
    }
    while done < input.len()
        invariant
            0 <= done <= input@.len(),
            input@.len() <= stream.segment_view().len(),
            stream.wf(),
            stream.segment_view() == old(stream).segment_view(),
            stream.hashing() == old(stream).hashing(),
            stream.consumed() == input@.take(done as int),
            out@ == stream.produced(),
        decreases input@.len() - done,
    {
        let n = if input.len() - done < CHUNK_SIZE {
            input.len() - done
        } else {
            CHUNK_SIZE
        };
        let chunk = &input[done..done + n];
        let ghost before = stream.consumed();
        match stream.process_chunk(chunk) {
            Ok(piece) => {
                proof {
                    lemma_xor_append(before, chunk@, stream.segment_view());
                    assert(input@.take(done as int) + chunk@ =~= input@.take(done + n));
                }
                let mut piece = piece;
                out.append(&mut piece);
            },
            Err(_) => {
                assert(false);
            },
        }
        done = done + n;
    }
    proof {
        assert(input@.take(done as int) =~= input@);
    }
    out
}

impl VaultState {
    /// Encrypts a whole plaintext by a plan: the plaintext is XORed with the
    /// pad bytes read for the plan, the ciphertext is hashed, and the planned
    /// range is recorded as consumed. Returns the ciphertext and the outcome.
    pub fn encrypt_bytes(&mut self, plan: &EncryptPlan, segment: Vec<u8>, plaintext: &[u8]) -> (r:
        Result<(Vec<u8>, EncryptOutcome), VaultError>)
        requires
            old(self).wf(),
        ensures
            final(self).wf(),
            old(self).flags_consistent() ==> final(self).flags_consistent(),
            segment@.len() != plan.length ==> {
                &&& r == Err::<(Vec<u8>, EncryptOutcome), VaultError>(
                    (VaultError::PadReadError { wanted: plan.length, got: segment@.len() as u64 }),
                )
                &&& *final(self) == *old(self)
            },
            segment@.len() == plan.length && plaintext@.len() > plan.length ==> {
                &&& r == Err::<(Vec<u8>, EncryptOutcome), VaultError>(
                    (VaultError::InputLongerThanSegment { segment_length: plan.length }),
                )
                &&& *final(self) == *old(self)
            },
            segment@.len() == plan.length && plaintext@.len() <= plan.length ==> match r {
                Ok((c, o)) => {
                    &&& c@ == xor_seq(plaintext@, segment@.take(plaintext@.len() as int))
                    &&& o.metadata.pad_id == plan.pad_id
                    &&& o.metadata.start_byte == plan.start
                    &&& o.metadata.length == plan.length
                    &&& o.metadata.ciphertext_hash@ == content_hash_of(c@)
                    &&& recorded(
                        *old(self),
                        *final(self),
                        plan.pad_id,
                        plan.start,
                        plan.length,
                        Ok(o.relocate),
                    )
                },
                Err(e) => recorded(
                    *old(self),
                    *final(self),
                    plan.pad_id,
                    plan.start,
                    plan.length,
                    Err(e),
                ),
            },
    {
        let mut stream = match plan.start_stream(segment) {
            Ok(s) => s,
            Err(e) => {
                return Err(e);
            },
        };
        if plaintext.len() as u64 > plan.length {
            return Err(VaultError::InputLongerThanSegment { segment_length: plan.length });
        }
        let ciphertext = run_stream(&mut stream, plaintext);
        let hash = match stream.finish() {
            Some(h) => h,
            None => {
                assert(false);
                String::new()
            },
        };
        match self.commit_encrypt(plan, hash) {
            Ok(o) => Ok((ciphertext, o)),
            Err(e) => Err(e),
        }
    }

    /// Decrypts a whole ciphertext by a plan: the ciphertext is XORed with
    /// the pad bytes read for the plan, and the range is noted as by
    /// `note_decrypted`. Returns the plaintext and what the bookkeeping did.
    pub fn decrypt_bytes(&mut self, plan: &DecryptPlan, segment: Vec<u8>, ciphertext: &[u8]) -> (r:
        Result<(Vec<u8>, DecryptRecord), VaultError>)
        requires
            old(self).wf(),
        ensures
            final(self).wf(),
            old(self).flags_consistent() ==> final(self).flags_consistent(),
            segment@.len() != plan.length ==> {
                &&& r == Err::<(Vec<u8>, DecryptRecord), VaultError>(
                    (VaultError::PadReadError { wanted: plan.length, got: segment@.len() as u64 }),
                )
                &&& *final(self) == *old(self)
            },
            segment@.len() == plan.length && ciphertext@.len() > plan.length ==> {
                &&& r == Err::<(Vec<u8>, DecryptRecord), VaultError>(
                    (VaultError::InputLongerThanSegment { segment_length: plan.length }),
                )
                &&& *final(self) == *old(self)
            },
            segment@.len() == plan.length && ciphertext@.len() <= plan.length ==> match r {
                Ok((p, record)) => {
                    &&& p@ == xor_seq(ciphertext@, segment@.take(ciphertext@.len() as int))
                    &&& noted(
                        *old(self),
                        *final(self),
                        plan.pad_id,
                        plan.start,
                        plan.length,
                        Ok(record),
                    )
                },
                Err(e) => noted(
                    *old(self),
                    *final(self),
                    plan.pad_id,
                    plan.start,
                    plan.length,
                    Err(e),
                ),
            },
    {
        let mut stream = match plan.start_stream(segment) {
            Ok(s) => s,
            Err(e) => {
                return Err(e);
            },
        };
        if ciphertext.len() as u64 > plan.length {
            return Err(VaultError::InputLongerThanSegment { segment_length: plan.length });
        }
        let plaintext = run_stream(&mut stream, ciphertext);
        match self.note_decrypted(&plan.pad_id, plan.start, plan.length) {
            Ok(record) => Ok((plaintext, record)),
            Err(e) => Err(e),
        }
    }
}

} // verus!
