//! Laws of the vault, proved over the specifications of its operations.

use vstd::prelude::*;

use crate::error::VaultError;
use crate::segment::Pad;
use crate::vault::{
    noted, pads_valid, recorded, DecryptPlan, DecryptRecord, DecryptRequest, EncryptPlan, PadSelector,
    VaultState,
};

verus! {

/// Some offset with `len` free bytes means a lowest such offset exists.
pub proof fn lemma_lowest_free_exists(p: Pad, t: int, len: int)
    requires
        p.is_free(t, len),
    ensures
        p.is_free(p.lowest_free(len), len),
        forall|u: int| 0 <= u < p.lowest_free(len) ==> !#[trigger] p.is_free(u, len),
    decreases t,
{
    if exists|u: int| 0 <= u < t && #[trigger] p.is_free(u, len) {
        let u = choose|u: int| 0 <= u < t && #[trigger] p.is_free(u, len);
        lemma_lowest_free_exists(p, u, len);
    } else {
        assert(forall|u: int| 0 <= u < t ==> !#[trigger] p.is_free(u, len));
        p.lemma_lowest_free_unique(t, len);
    }
}

/// Recording a range keeps a well-formed vault well formed.
pub proof fn lemma_recorded_keeps_wf(
    before: VaultState,
    after: VaultState,
    pad_id: String,
    start: u64,
    length: u64,
    r: Result<bool, VaultError>,
)
    requires
        before.wf(),
        recorded(before, after, pad_id, start, length, r),
    ensures
        after.wf(),
        before.position_of(pad_id@) is Some ==> after.position_of(pad_id@) == before.position_of(pad_id@),
{
    if let Some(i) = before.position_of(pad_id@) {
        let p = before.pads@[i];
        assert(p.id@ == pad_id@);
        if start + length <= p.size && p.is_free(start as int, length as int) && length > 0 {
            p.lemma_record_free_keeps_valid(start as int, length as int);
            assert forall|a: int, b: int| 0 <= a < b < after.pads@.len() implies (
            #[trigger] after.pads@[a]).id@ != (#[trigger] after.pads@[b]).id@ by {
                assert(before.pads@[a].id@ != before.pads@[b].id@);
            }
            assert forall|a: int| 0 <= a < after.pads@.len() implies (#[trigger] after.pads@[a]).wf() by {
                if a != i {
                    assert(after.pads@[a] == before.pads@[a]);
                }
            }
            assert(after.pads@[i].id@ == pad_id@);
            after.lemma_position_of(pad_id@, i);
        }
    }
}

/// Encryption never reuses pad bytes: the range that a successful plan picks
/// meets no consumed range of its pad, recording it succeeds, and afterwards
/// the consumed ranges of every pad are still pairwise disjoint.
pub proof fn lemma_encrypt_never_reuses(
    before: VaultState,
    after: VaultState,
    length: u64,
    selector: PadSelector,
    offset: Option<u64>,
    plan: EncryptPlan,
    r: Result<bool, VaultError>,
)
    requires
        before.wf(),
        before.encrypt_plan_spec(length, selector, offset) == Ok::<EncryptPlan, VaultError>(plan),
        recorded(before, after, plan.pad_id, plan.start, plan.length, r),
    ensures
        before.position_of(plan.pad_id@) matches Some(i) && before.pads@[i].is_free(
            plan.start as int,
            plan.length as int,
        ),
        r is Ok,
        pads_valid(after.pads@),
{
    let i = before.selected(selector, length)->Some_0;
    let p = before.pads@[i];
    lemma_selected_in_range(before, selector, length);
    assert(p.resolve_start_spec(offset, length) == Ok::<u64, VaultError>(plan.start)
        && plan.pad_id == p.id && plan.length == length && !p.is_fully_used);
    lemma_resolved_start_is_free(p, offset, length);
    before.lemma_position_of(plan.pad_id@, i);
    lemma_recorded_keeps_wf(before, after, plan.pad_id, plan.start, plan.length, r);
}

proof fn lemma_selected_in_range(v: VaultState, selector: PadSelector, length: u64)
    ensures
        v.selected(selector, length) matches Some(i) ==> 0 <= i < v.pads@.len(),
{
    if selector is Automatic && v.first_with_room(length as int) is Some {
        let k = choose|k: int| 0 <= k < v.pads@.len() && (#[trigger] v.pads@[k]).has_room(length as int);
        lemma_first_with_room_exists(v, k, length as int);
    }
}

/// A pad with room means a first pad with room exists.
pub proof fn lemma_first_with_room_exists(v: VaultState, k: int, length: int)
    requires
        0 <= k < v.pads@.len(),
        v.pads@[k].has_room(length),
    ensures
        v.first_with_room(length) matches Some(i) && 0 <= i <= k && v.pads@[i].has_room(length)
            && forall|j: int| 0 <= j < i ==> !(#[trigger] v.pads@[j]).has_room(length),
    decreases k,
{
    if exists|j: int| 0 <= j < k && (#[trigger] v.pads@[j]).has_room(length) {
        let j = choose|j: int| 0 <= j < k && (#[trigger] v.pads@[j]).has_room(length);
        lemma_first_with_room_exists(v, j, length);
    } else {
        let i = v.first_with_room(length)->Some_0;
        assert(v.pads@[i].has_room(length));
        if i < k {
            assert(!v.pads@[i].has_room(length));
        }
        if k < i {
            assert(!v.pads@[k].has_room(length));
        }
    }
}

/// A start that offset resolution accepts has its whole range free.
pub proof fn lemma_resolved_start_is_free(p: Pad, offset: Option<u64>, length: u64)
    ensures
        p.resolve_start_spec(offset, length) matches Ok(s) ==> p.is_free(s as int, length as int),
{
    if offset is None && p.has_room(length as int) {
        let t = choose|t: int| p.is_free(t, length as int);
        lemma_lowest_free_exists(p, t, length as int);
    }
}

/// The integrity gate: when the received ciphertext does not hash to the
/// value in its metadata, planning the decryption fails with the mismatch and
/// hands out no pad range to read, whatever the vault holds.
pub proof fn lemma_integrity_gate(v: VaultState, request: DecryptRequest)
    requires
        request matches DecryptRequest::WithMetadata { metadata, actual_hash } && actual_hash@
            != metadata.ciphertext_hash@,
    ensures
        request matches DecryptRequest::WithMetadata { metadata, actual_hash } && v.decrypt_plan_spec(
            request,
        ) == Err::<DecryptPlan, VaultError>(
            (VaultError::IntegrityMismatch { expected_hash: metadata.ciphertext_hash, actual_hash }),
        ),
{
}

/// Decryption bookkeeping is idempotent: after the same range has been noted
/// once, noting it again changes nothing and reports no relocation, so the
/// consumed byte count stays the same.
pub proof fn lemma_decrypt_bookkeeping_idempotent(
    v0: VaultState,
    v1: VaultState,
    v2: VaultState,
    pad_id: String,
    start: u64,
    length: u64,
    r1: Result<DecryptRecord, VaultError>,
    r2: Result<DecryptRecord, VaultError>,
)
    requires
        v0.wf(),
        noted(v0, v1, pad_id, start, length, r1),
        r1 is Ok,
        noted(v1, v2, pad_id, start, length, r2),
    ensures
        v2 == v1,
        r2 is Ok,
        r2 != Ok::<DecryptRecord, VaultError>(DecryptRecord::Recorded { relocate: true }),
{
    let i = v0.position_of(pad_id@)->Some_0;
    let p = v0.pads@[i];
    if let Ok(DecryptRecord::Recorded { relocate }) = r1 {
        assert(!p.is_recorded(start as int, length as int));
        lemma_recorded_keeps_wf(v0, v1, pad_id, start, length, Ok(relocate));
        if length > 0 {
            let q = v1.pads@[i];
            let n = p.segs().len() as int;
            assert(q.segs()[n] == q.segs().last());
            assert(q.is_recorded(start as int, length as int));
        }
    }
}

/// Consuming the last free bytes marks the pad full: when the flags agree
/// with the consumed bytes and a pad not marked full gets a range recorded
/// that brings its consumed bytes up to its size, the recording reports a
/// relocation, the pad is marked fully used, and the flags still agree.
pub proof fn lemma_last_range_marks_full(
    before: VaultState,
    after: VaultState,
    pad_id: String,
    start: u64,
    length: u64,
    r: Result<bool, VaultError>,
)
    requires
        before.wf(),
        before.flags_consistent(),
        recorded(before, after, pad_id, start, length, r),
        r is Ok,
        before.position_of(pad_id@) matches Some(i) && !before.pads@[i].is_fully_used
            && before.pads@[i].used_total() + length >= before.pads@[i].size,
    ensures
        r == Ok::<bool, VaultError>(true),
        after.position_of(pad_id@) matches Some(i) && after.pads@[i].is_fully_used,
        after.flags_consistent(),
{
    let i = before.position_of(pad_id@)->Some_0;
    let p = before.pads@[i];
    assert(p.is_fully_used == p.full_spec());
    assert(length > 0);
    p.lemma_record_free_keeps_valid(start as int, length as int);
    lemma_recorded_keeps_wf(before, after, pad_id, start, length, r);
    assert forall|j: int| 0 <= j < after.pads@.len() implies (#[trigger] after.pads@[j]).is_fully_used
        == after.pads@[j].full_spec() by {
        if j != i {
            assert(after.pads@[j] == before.pads@[j]);
        }
    }
}

/// The fully-used transition happens once: a recording that reports a
/// relocation leaves the pad marked fully used, and no later recording on
/// that pad reports a relocation again; a non-empty one fails.
pub proof fn lemma_full_transition_once(
    v0: VaultState,
    v1: VaultState,
    v2: VaultState,
    pad_id: String,
    s1: u64,
    l1: u64,
    s2: u64,
    l2: u64,
    r2: Result<bool, VaultError>,
)
    requires
        v0.wf(),
        recorded(v0, v1, pad_id, s1, l1, Ok(true)),
        recorded(v1, v2, pad_id, s2, l2, r2),
    ensures
        v1.position_of(pad_id@) matches Some(i) && v1.pads@[i].is_fully_used
            && v1.pads@[i].full_spec(),
        r2 != Ok::<bool, VaultError>(true),
        l2 > 0 ==> r2 is Err,
{
    lemma_recorded_keeps_wf(v0, v1, pad_id, s1, l1, Ok(true));
    let i = v1.position_of(pad_id@)->Some_0;
    let q = v1.pads@[i];
    if l2 > 0 && s2 + l2 <= q.size {
        q.lemma_full_pad_has_no_room(s2 as int, l2 as int);
    }
}

} // verus!
