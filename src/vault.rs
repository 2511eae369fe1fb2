//! The vault state and the decisions of encryption and decryption: which
//! pad and bytes to use, and how consumption is recorded.

use vstd::prelude::*;

use crate::error::VaultError;
use crate::segment::{Pad, StorageArea, UsedSegment};

verus! {

/// How the pad for an encryption is chosen.
#[derive(Debug, Clone, PartialEq, Eq)]
pub enum PadSelector {
    /// The first pad with enough contiguous free space.
    Automatic,
    /// The pad with this id.
    Explicit(String),
}

/// What an encryption will consume: `length` bytes of the pad `pad_id`,
/// starting at `start`. The pad's file is in the available area.
#[derive(Debug, Clone, PartialEq, Eq)]
pub struct EncryptPlan {
    pub pad_id: String,
    pub file_name: String,
    pub start: u64,
    pub length: u64,
}

/// The record that binds a ciphertext to the pad bytes it was made with.
#[derive(Debug, Clone, PartialEq, Eq)]
pub struct CiphertextMetadata {
    pub pad_id: String,
    pub start_byte: u64,
    pub length: u64,
    /// Lower-case hexadecimal SHA-256 of the ciphertext.
    pub ciphertext_hash: String,
}

/// The result of a committed encryption.
#[derive(Debug, Clone, PartialEq, Eq)]
pub struct EncryptOutcome {
    pub metadata: CiphertextMetadata,
    /// The pad has just become fully used: its file must move to the used area.
    pub relocate: bool,
}

/// What a decryption is asked to do.
#[derive(Debug, Clone, PartialEq, Eq)]
pub enum DecryptRequest {
    /// Decrypt by a metadata record; `actual_hash` is the content hash of the
    /// ciphertext as it was actually received.
    WithMetadata { metadata: CiphertextMetadata, actual_hash: String },
    /// Decrypt by parameters that the caller gives.
    Manual { pad_id: String, start_byte: u64, length: u64 },
}

/// What a decryption will read: `length` bytes of the pad `pad_id` at
/// `start`, from the file `file_name` in `area`.
#[derive(Debug, Clone, PartialEq, Eq)]
pub struct DecryptPlan {
    pub pad_id: String,
    pub file_name: String,
    pub area: StorageArea,
    pub start: u64,
    pub length: u64,
}

/// What the bookkeeping after a decryption did.
#[derive(Debug, Clone, Copy, PartialEq, Eq, Structural)]
pub enum DecryptRecord {
    /// The range was already recorded exactly; nothing changed.
    AlreadyRecorded,
    /// The range was recorded as consumed; `relocate` says that the pad has
    /// just become fully used, so that its file must be moved.
    Recorded { relocate: bool },
    /// The range meets consumed ranges without matching one. It is left
    /// unrecorded, so that recorded ranges never overlap.
    Overlapping,
}

impl DecryptRequest {
    /// The pad the request names.
    pub open spec fn pad_id_spec(&self) -> String {
        match self {
            DecryptRequest::WithMetadata { metadata, .. } => metadata.pad_id,
            DecryptRequest::Manual { pad_id, .. } => *pad_id,
        }
    }

    /// The first pad byte the request names.
    pub open spec fn start_spec(&self) -> u64 {
        match self {
            DecryptRequest::WithMetadata { metadata, .. } => metadata.start_byte,
            DecryptRequest::Manual { start_byte, .. } => *start_byte,
        }
    }

    /// The number of pad bytes the request names.
    pub open spec fn length_spec(&self) -> u64 {
        match self {
            DecryptRequest::WithMetadata { metadata, .. } => metadata.length,
            DecryptRequest::Manual { length, .. } => *length,
        }
    }

    /// The failure of the integrity gate, if the received ciphertext does not
    /// hash to the recorded value.
    pub open spec fn integrity_error(&self) -> Option<VaultError> {
        match self {
            DecryptRequest::WithMetadata { metadata, actual_hash } => {
                if actual_hash@ == metadata.ciphertext_hash@ {
                    None
                } else {
                    Some(
                        VaultError::IntegrityMismatch {
                            expected_hash: metadata.ciphertext_hash,
                            actual_hash: *actual_hash,
                        },
                    )
                }
            },
            DecryptRequest::Manual { .. } => None,
        }
    }
}

/// All pads of one vault.
#[derive(Debug, Clone)]
pub struct VaultState {
    pub pads: Vec<Pad>,
}

/// Every pad is well formed and no two pads share an id.
pub open spec fn pads_valid(pads: Seq<Pad>) -> bool {
    &&& forall|i: int| 0 <= i < pads.len() ==> (#[trigger] pads[i]).wf()
    &&& forall|i: int, j: int|
        0 <= i < j < pads.len() ==> (#[trigger] pads[i]).id@ != (#[trigger] pads[j]).id@
}

/// The failure of a selector that picks no pad.
pub open spec fn selection_error(selector: PadSelector, length: u64) -> VaultError {
    match selector {
        PadSelector::Explicit(id) => VaultError::PadNotFound { pad_id: id },
        PadSelector::Automatic => VaultError::NoSuitablePad { length },
    }
}

/// The effect of recording `[start, start + length)` as consumed in the pad
/// `pad_id`: `after` is the state after, `r` the result.
pub open spec fn recorded(
    before: VaultState,
    after: VaultState,
    pad_id: String,
    start: u64,
    length: u64,
    r: Result<bool, VaultError>,
) -> bool {
    match before.position_of(pad_id@) {
        None => r == Err::<bool, VaultError>(VaultError::PadNotFound { pad_id }) && after == before,
        Some(i) => {
            let p = before.pads@[i];
            if start + length > p.size {
                &&& r == Err::<bool, VaultError>(
                    VaultError::SegmentOutOfBounds { pad_id: p.id, start, length, size: p.size },
                )
                &&& after == before
            } else if !p.is_free(start as int, length as int) {
                &&& r == Err::<bool, VaultError>(
                    VaultError::SegmentOverlap { pad_id: p.id, start, length },
                )
                &&& after == before
            } else if length == 0 {
                r == Ok::<bool, VaultError>(false) && after == before
            } else {
                &&& after.pads@.len() == before.pads@.len()
                &&& forall|j: int|
                    0 <= j < before.pads@.len() && j != i ==> after.pads@[j] == before.pads@[j]
                &&& after.pads@[i].extends(p, start as int, length as int)
                &&& r == Ok::<bool, VaultError>(after.pads@[i].is_fully_used && !p.is_fully_used)
            }
        },
    }
}

/// Number of pad bytes there are to read from `start` on, in a pad of `size`
/// bytes.
pub open spec fn readable_bytes(size: u64, start: u64) -> u64 {
    if start >= size {
        0
    } else {
        (size - start) as u64
    }
}

/// The effect of the bookkeeping after a decryption: a range already
/// recorded exactly is left alone, a range that meets recorded ranges without
/// matching one is left unrecorded, and a free one is recorded.
pub open spec fn noted(
    before: VaultState,
    after: VaultState,
    pad_id: String,
    start: u64,
    length: u64,
    r: Result<DecryptRecord, VaultError>,
) -> bool {
    match before.position_of(pad_id@) {
        None => r == Err::<DecryptRecord, VaultError>(VaultError::PadNotFound { pad_id })
            && after == before,
        Some(i) => {
            let p = before.pads@[i];
            if p.is_recorded(start as int, length as int) {
                r == Ok::<DecryptRecord, VaultError>(DecryptRecord::AlreadyRecorded) && after == before
            } else if start + length > p.size {
                &&& r == Err::<DecryptRecord, VaultError>(
                    VaultError::SegmentOutOfBounds { pad_id: p.id, start, length, size: p.size },
                )
                &&& after == before
            } else if !p.is_free(start as int, length as int) {
                r == Ok::<DecryptRecord, VaultError>(DecryptRecord::Overlapping) && after == before
            } else {
                &&& r matches Ok(DecryptRecord::Recorded { relocate })
                &&& recorded(before, after, pad_id, start, length, Ok(relocate))
            }
        },
    }
}

impl Default for VaultState {
    /// An empty vault, as when no state file exists yet.
    fn default() -> (r: VaultState)
        ensures
            r.wf(),
            r.pads@.len() == 0,
    {
        VaultState::new()
    }
}

impl VaultState {
    /// Every pad is well formed and ids are unique.
    pub open spec fn wf(&self) -> bool {
        pads_valid(self.pads@)
    }

    /// Every pad's cached fully-used flag agrees with its consumed bytes.
    pub open spec fn flags_consistent(&self) -> bool {
        forall|i: int|
            0 <= i < self.pads@.len() ==> (#[trigger] self.pads@[i]).is_fully_used
                == self.pads@[i].full_spec()
    }

    /// Index of the pad with this id.
    pub open spec fn position_of(&self, id: Seq<char>) -> Option<int> {
        if exists|i: int| 0 <= i < self.pads@.len() && (#[trigger] self.pads@[i]).id@ == id {
            Some(choose|i: int| 0 <= i < self.pads@.len() && (#[trigger] self.pads@[i]).id@ == id)
        } else {
            None
        }
    }

    /// Index of the first pad that has room for `length` bytes.
    pub open spec fn first_with_room(&self, length: int) -> Option<int> {
        if exists|i: int| 0 <= i < self.pads@.len() && (#[trigger] self.pads@[i]).has_room(length) {
            Some(
                choose|i: int|
                    0 <= i < self.pads@.len() && (#[trigger] self.pads@[i]).has_room(length)
                        && forall|j: int| 0 <= j < i ==> !(#[trigger] self.pads@[j]).has_room(length),
            )
        } else {
            None
        }
    }

    /// Index of the pad that the selector picks.
    pub open spec fn selected(&self, selector: PadSelector, length: u64) -> Option<int> {
        match selector {
            PadSelector::Explicit(id) => self.position_of(id@),
            PadSelector::Automatic => self.first_with_room(length as int),
        }
    }

    /// The result that planning an encryption must give.
    pub open spec fn encrypt_plan_spec(
        &self,
        length: u64,
        selector: PadSelector,
        offset: Option<u64>,
    ) -> Result<EncryptPlan, VaultError> {
        match self.selected(selector, length) {
            None => Err(selection_error(selector, length)),
            Some(i) => {
                let p = self.pads@[i];
                match p.resolve_start_spec(offset, length) {
                    Err(e) => Err(e),
                    Ok(s) => if p.is_fully_used {
                        Err(VaultError::PadAlreadyFullyUsed { pad_id: p.id })
                    } else {
                        Ok(EncryptPlan { pad_id: p.id, file_name: p.file_name, start: s, length })
                    },
                }
            },
        }
    }

    /// The result that planning a decryption must give.
    pub open spec fn decrypt_plan_spec(&self, req: DecryptRequest) -> Result<DecryptPlan, VaultError> {
        match req.integrity_error() {
            Some(e) => Err(e),
            None => match self.position_of(req.pad_id_spec()@) {
                None => Err(VaultError::PadNotFound { pad_id: req.pad_id_spec() }),
                Some(i) => {
                    let p = self.pads@[i];
                    let start = req.start_spec();
                    let length = req.length_spec();
                    if start + length > p.size {
                        Err(
                            VaultError::PadReadError {
                                wanted: length,
                                got: readable_bytes(p.size, start),
                            },
                        )
                    } else {
                        Ok(
                            DecryptPlan {
                                pad_id: p.id,
                                file_name: p.file_name,
                                area: p.area_spec(),
                                start,
                                length,
                            },
                        )
                    }
                },
            },
        }
    }

    /// With unique ids, the pad that carries an id is the one `position_of` names.
    pub proof fn lemma_position_of(&self, id: Seq<char>, i: int)
        requires
            self.wf(),
            0 <= i < self.pads@.len(),
            self.pads@[i].id@ == id,
        ensures
            self.position_of(id) == Some(i),
    {
        let j = choose|j: int| 0 <= j < self.pads@.len() && (#[trigger] self.pads@[j]).id@ == id;
        if j < i {
            assert(self.pads@[j].id@ != self.pads@[i].id@);
        }
        if i < j {
            assert(self.pads@[i].id@ != self.pads@[j].id@);
        }
    }

    /// An empty vault.
    pub fn new() -> (r: VaultState)
        ensures
            r.wf(),
            r.pads@.len() == 0,
    {
        VaultState { pads: Vec::new() }
    }

    /// A vault of the given pads, if every pad is well formed and no two
    /// share an id; loaded state that is not is refused.
    pub fn from_pads(pads: Vec<Pad>) -> (r: Result<VaultState, VaultError>)
        ensures
            pads_valid(pads@) ==> (r matches Ok(v) && v.pads@ == pads@),
            !pads_valid(pads@) ==> r == Err::<VaultState, VaultError>(VaultError::StateIoError),
    {
        let n = pads.len();
        let mut i: usize = 0;
        while i < n
            invariant
                0 <= i <= n,
                n == pads@.len(),
                pads_valid(pads@.take(i as int)),
            decreases n - i,
        {
            if !pads[i].check_wf() {
                return Err(VaultError::StateIoError);
            }
            let mut j: usize = 0;
            while j < i
                invariant
                    0 <= j <= i < n,
                    n == pads@.len(),
                    forall|k: int| 0 <= k < j ==> (#[trigger] pads@[k]).id@ != pads@[i as int].id@,
                decreases i - j,
            {
                if pads[j].id == pads[i].id {
                    return Err(VaultError::StateIoError);
                }
                j += 1;
            }
            proof {
                let t = pads@.take(i + 1);
                let p = pads@.take(i as int);
                assert forall|a: int, b: int| 0 <= a < b < t.len() implies (#[trigger] t[a]).id@
                    != (#[trigger] t[b]).id@ by {
                    if b < i {
                        assert(p[a] == t[a] && p[b] == t[b]);
                    }
                }
                assert forall|a: int| 0 <= a < t.len() implies (#[trigger] t[a]).wf() by {
                    if a < i {
                        assert(p[a] == t[a]);
                    }
                }
            }
            i += 1;
        }
        assert(pads@.take(n as int) =~= pads@);
        Ok(VaultState { pads })
    }

    fn find_index(&self, id: &String) -> (r: Option<usize>)
        requires
            self.wf(),
        ensures
            match r {
                Some(i) => self.position_of(id@) == Some(i as int) && i < self.pads@.len(),
                None => self.position_of(id@) is None,
            },
    {
        let mut i: usize = 0;
        while i < self.pads.len()
            invariant
                0 <= i <= self.pads@.len(),
                self.wf(),
                forall|k: int| 0 <= k < i ==> (#[trigger] self.pads@[k]).id@ != id@,
            decreases self.pads@.len() - i,
        {
            if self.pads[i].id == *id {
                proof {
                    self.lemma_position_of(id@, i as int);
                }
                return Some(i);
            }
            i += 1;
        }
        None
    }

    /// The pad with this id.
    pub fn get_pad(&self, id: &String) -> (r: Option<&Pad>)
        requires
            self.wf(),
        ensures
            match self.position_of(id@) {
                Some(i) => r matches Some(p) && *p == self.pads@[i],
                None => r is None,
            },
    {
        match self.find_index(id) {
            Some(i) => Some(&self.pads[i]),
            None => None,
        }
    }

    /// Registers a fresh pad; one with the same id is replaced in place.
    pub fn add_pad(&mut self, id: String, file_name: String, size: u64)
        requires
            old(self).wf(),
        ensures
            final(self).wf(),
            old(self).flags_consistent() ==> final(self).flags_consistent(),
            match old(self).position_of(id@) {
                Some(i) => {
                    &&& final(self).pads@.len() == old(self).pads@.len()
                    &&& forall|j: int|
                        0 <= j < old(self).pads@.len() && j != i ==> final(self).pads@[j]
                            == old(self).pads@[j]
                    &&& final(self).pads@[i].is_fresh(id, file_name, size)
                },
                None => {
                    &&& final(self).pads@.len() == old(self).pads@.len() + 1
                    &&& forall|j: int|
                        0 <= j < old(self).pads@.len() ==> final(self).pads@[j] == old(self).pads@[j]
                    &&& final(self).pads@.last().is_fresh(id, file_name, size)
                },
            },
    {
        let pad = Pad {
            id: id.clone(),
            file_name,
            size,
            used_segments: Vec::new(),
            is_fully_used: size == 0,
        };
        proof {
            assert(pad.segs().len() == 0);
            assert(pad.used_total() == 0);
        }
        match self.find_index(&id) {
            Some(i) => {
                self.pads.remove(i);
                self.pads.insert(i, pad);
                proof {
                    let o = old(self).pads@;
                    assert(self.pads@ =~= o.update(i as int, pad));
                    assert forall|a: int, b: int| 0 <= a < b < self.pads@.len() implies (
                    #[trigger] self.pads@[a]).id@ != (#[trigger] self.pads@[b]).id@ by {
                        assert(o[a].id@ != o[b].id@);
                    }
                }
            },
            None => {
                self.pads.push(pad);
                proof {
                    let o = old(self).pads@;
                    assert forall|a: int, b: int| 0 <= a < b < self.pads@.len() implies (
                    #[trigger] self.pads@[a]).id@ != (#[trigger] self.pads@[b]).id@ by {
                        if b < o.len() {
                            assert(o[a].id@ != o[b].id@);
                        } else {
                            assert(o[a].id@ != id@);
                        }
                    }
                }
            },
        }
    }

    /// Removes the pad with this id and hands it back.
    pub fn remove_pad(&mut self, id: &String) -> (r: Option<Pad>)
        requires
            old(self).wf(),
        ensures
            final(self).wf(),
            old(self).flags_consistent() ==> final(self).flags_consistent(),
            match old(self).position_of(id@) {
                Some(i) => r == Some(old(self).pads@[i]) && final(self).pads@ == old(
                    self,
                ).pads@.remove(i),
                None => r is None && *final(self) == *old(self),
            },
    {
        match self.find_index(id) {
            Some(i) => {
                let p = self.pads.remove(i);
                proof {
                    let o = old(self).pads@;
                    assert forall|a: int, b: int| 0 <= a < b < self.pads@.len() implies (
                    #[trigger] self.pads@[a]).id@ != (#[trigger] self.pads@[b]).id@ by {
                        let a2 = if a < i { a } else { a + 1 };
                        let b2 = if b < i { b } else { b + 1 };
                        assert(self.pads@[a] == o[a2] && self.pads@[b] == o[b2]);
                        assert(o[a2].id@ != o[b2].id@);
                    }
                    assert forall|a: int| 0 <= a < self.pads@.len() implies (
                    #[trigger] self.pads@[a]).wf() by {
                        let a2 = if a < i { a } else { a + 1 };
                        assert(self.pads@[a] == o[a2]);
                    }
                }
                Some(p)
            },
            None => None,
        }
    }

    fn first_pad_with_room(&self, length: u64) -> (r: Option<usize>)
        requires
            self.wf(),
        ensures
            match r {
                Some(i) => self.first_with_room(length as int) == Some(i as int) && i < self.pads@.len(),
                None => self.first_with_room(length as int) is None,
            },
    {
        let mut i: usize = 0;
        while i < self.pads.len()
            invariant
                0 <= i <= self.pads@.len(),
                self.wf(),
                forall|k: int| 0 <= k < i ==> !(#[trigger] self.pads@[k]).has_room(length as int),
            decreases self.pads@.len() - i,
        {
            let found = self.pads[i].find_available_segment(length);
            if found.is_some() {
                proof {
                    let s = found.unwrap();
                    assert(self.pads@[i as int].is_free(s as int, length as int));
                    let c = self.first_with_room(length as int).unwrap();
                    assert(self.pads@[c].has_room(length as int));
                    if c < i {
                        assert(!self.pads@[c].has_room(length as int));
                    }
                    if i < c {
                        assert(!self.pads@[i as int].has_room(length as int));
                    }
                }
                return Some(i);
            }
            proof {
                if self.pads@[i as int].has_room(length as int) {
                    let t = choose|t: int| self.pads@[i as int].is_free(t, length as int);
                    assert(self.pads@[i as int].is_free(t, length as int));
                }
            }
            i += 1;
        }
        None
    }

    fn select_index(&self, selector: &PadSelector, length: u64) -> (r: Result<usize, VaultError>)
        requires
            self.wf(),
        ensures
            match self.selected(*selector, length) {
                Some(i) => r matches Ok(k) && k as int == i && i < self.pads@.len(),
                None => r == Err::<usize, VaultError>(selection_error(*selector, length)),
            },
    {
        match selector {
            PadSelector::Explicit(id) => match self.find_index(id) {
                Some(i) => Ok(i),
                None => Err(VaultError::PadNotFound { pad_id: id.clone() }),
            },
            PadSelector::Automatic => match self.first_pad_with_room(length) {
                Some(i) => Ok(i),
                None => Err(VaultError::NoSuitablePad { length }),
            },
        }
    }

    /// Decides which pad and which bytes an encryption of `input_length`
    /// bytes will consume. The pad is the one named, or else the first with
    /// enough contiguous free space; the offset is the one given, checked to
    /// lie inside the pad and meet no consumed range, or else the lowest free
    /// one. A pad marked fully used is refused. Nothing is changed.
    pub fn plan_encrypt(
        &self,
        input_length: u64,
        selector: &PadSelector,
        offset: Option<u64>,
    ) -> (r: Result<EncryptPlan, VaultError>)
        requires
            self.wf(),
        ensures
            r == self.encrypt_plan_spec(input_length, *selector, offset),
    {
        let i = match self.select_index(selector, input_length) {
            Ok(i) => i,
            Err(e) => {
                return Err(e);
            },
        };
        let pad = &self.pads[i];
        assert(self.selected(*selector, input_length) == Some(i as int));
        assert(*pad == self.pads@[i as int]);
        let start = match pad.resolve_start(offset, input_length) {
            Ok(s) => s,
            Err(e) => {
                return Err(e);
            },
        };
        if pad.is_fully_used {
            return Err(VaultError::PadAlreadyFullyUsed { pad_id: pad.id.clone() });
        }
        Ok(
            EncryptPlan {
                pad_id: pad.id.clone(),
                file_name: pad.file_name.clone(),
                start,
                length: input_length,
            },
        )
    }

    /// Records `[start, start + length)` of the pad `pad_id` as consumed. The
    /// range must lie inside the pad and meet no consumed range; an empty
    /// range consumes nothing. On success the pad's fully-used flag is
    /// recomputed, and the result says whether the pad has just become fully
    /// used, so that its file must be moved. On failure nothing changes.
    pub fn record_segment(&mut self, pad_id: &String, start: u64, length: u64) -> (r: Result<
        bool,
        VaultError,
    >)
        requires
            old(self).wf(),
        ensures
            final(self).wf(),
            old(self).flags_consistent() ==> final(self).flags_consistent(),
            recorded(*old(self), *final(self), *pad_id, start, length, r),
    {
        let i = match self.find_index(pad_id) {
            Some(i) => i,
            None => {
                return Err(VaultError::PadNotFound { pad_id: pad_id.clone() });
            },
        };
        match self.pads[i].check_explicit_segment(start, length) {
            Ok(()) => {},
            Err(e) => {
                return Err(e);
            },
        }
        if length == 0 {
            return Ok(false);
        }
        let was_full = self.pads[i].is_fully_used;
        let mut pad = self.pads.remove(i);
        proof {
            pad.lemma_record_free_keeps_valid(start as int, length as int);
        }
        pad.used_segments.push(UsedSegment { start, end: start + length });
        let full = pad.is_fully_used();
        pad.is_fully_used = full;
        self.pads.insert(i, pad);
        proof {
            let o = old(self).pads@;
            assert(self.pads@ =~= o.update(i as int, pad));
            assert forall|a: int, b: int| 0 <= a < b < self.pads@.len() implies (
            #[trigger] self.pads@[a]).id@ != (#[trigger] self.pads@[b]).id@ by {
                assert(o[a].id@ != o[b].id@);
            }
            assert forall|a: int| 0 <= a < self.pads@.len() implies (#[trigger] self.pads@[a]).wf() by {
                if a != i {
                    assert(self.pads@[a] == o[a]);
                }
            }
        }
        Ok(full && !was_full)
    }

    /// Commits a finished encryption: records the planned range as consumed
    /// and returns the metadata that binds the ciphertext to it.
    pub fn commit_encrypt(&mut self, plan: &EncryptPlan, ciphertext_hash: String) -> (r: Result<
        EncryptOutcome,
        VaultError,
    >)
        requires
            old(self).wf(),
        ensures
            final(self).wf(),
            old(self).flags_consistent() ==> final(self).flags_consistent(),
            match r {
                Ok(o) => {
                    &&& recorded(
                        *old(self),
                        *final(self),
                        plan.pad_id,
                        plan.start,
                        plan.length,
                        Ok(o.relocate),
                    )
                    &&& o.metadata == (CiphertextMetadata {
                        pad_id: plan.pad_id,
                        start_byte: plan.start,
                        length: plan.length,
                        ciphertext_hash,
                    })
                },
                Err(e) => recorded(
                    *old(self),
                    *final(self),
                    plan.pad_id,
                    plan.start,
                    plan.length,
                    Err(e),
                ),
            },
    {
        match self.record_segment(&plan.pad_id, plan.start, plan.length) {
            Ok(relocate) => Ok(
                EncryptOutcome {
                    metadata: CiphertextMetadata {
                        pad_id: plan.pad_id.clone(),
                        start_byte: plan.start,
                        length: plan.length,
                        ciphertext_hash,
                    },
                    relocate,
                },
            ),
            Err(e) => Err(e),
        }
    }

    /// Decides which pad bytes a decryption will read. With metadata, the
    /// content hash of the received ciphertext must match the recorded one
    /// before anything else is looked at. Any range that lies inside the pad
    /// can be read; one that runs past its end would be a short read. The
    /// file is looked for in the area that the pad's flag names. Nothing is
    /// changed.
    pub fn plan_decrypt(&self, request: &DecryptRequest) -> (r: Result<DecryptPlan, VaultError>)
        requires
            self.wf(),
        ensures
            r == self.decrypt_plan_spec(*request),
    {
        let (pad_id, start, length) = match request {
            DecryptRequest::WithMetadata { metadata, actual_hash } => {
                if *actual_hash != metadata.ciphertext_hash {
                    return Err(
                        VaultError::IntegrityMismatch {
                            expected_hash: metadata.ciphertext_hash.clone(),
                            actual_hash: actual_hash.clone(),
                        },
                    );
                }
                (&metadata.pad_id, metadata.start_byte, metadata.length)
            },
            DecryptRequest::Manual { pad_id, start_byte, length } => (pad_id, *start_byte, *length),
        };
        let i = match self.find_index(pad_id) {
            Some(i) => i,
            None => {
                return Err(VaultError::PadNotFound { pad_id: pad_id.clone() });
            },
        };
        let pad = &self.pads[i];
        if length > pad.size || start > pad.size - length {
            let got = if start >= pad.size {
                0
            } else {
                pad.size - start
            };
            return Err(VaultError::PadReadError { wanted: length, got });
        }
        Ok(
            DecryptPlan {
                pad_id: pad.id.clone(),
                file_name: pad.file_name.clone(),
                area: pad.storage_area(),
                start,
                length,
            },
        )
    }

    /// The bookkeeping after a decryption: a range already recorded exactly
    /// is left alone (decrypting twice counts once); a range that meets
    /// consumed ranges without matching one is left unrecorded; a free range
    /// is recorded as by `record_segment`. The result says which happened.
    pub fn note_decrypted(&mut self, pad_id: &String, start: u64, length: u64) -> (r: Result<
        DecryptRecord,
        VaultError,
    >)
        requires
            old(self).wf(),
        ensures
            final(self).wf(),
            old(self).flags_consistent() ==> final(self).flags_consistent(),
            noted(*old(self), *final(self), *pad_id, start, length, r),
    {
        let i = match self.find_index(pad_id) {
            Some(i) => i,
            None => {
                return Err(VaultError::PadNotFound { pad_id: pad_id.clone() });
            },
        };
        if self.pads[i].has_segment(start, length) {
            return Ok(DecryptRecord::AlreadyRecorded);
        }
        match self.pads[i].check_explicit_segment(start, length) {
            Ok(()) => {},
            Err(VaultError::SegmentOverlap { .. }) => {
                return Ok(DecryptRecord::Overlapping);
            },
            Err(e) => {
                return Err(e);
            },
        }
        match self.record_segment(pad_id, start, length) {
            Ok(relocate) => Ok(DecryptRecord::Recorded { relocate }),
            Err(e) => Err(e),
        }
    }
}

} // verus!
