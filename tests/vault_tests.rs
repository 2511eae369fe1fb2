use otp_vault::digest::content_hash;
use otp_vault::error::VaultError;
use otp_vault::segment::{Pad, StorageArea, UsedSegment};
use otp_vault::vault::{CiphertextMetadata, DecryptRecord, DecryptRequest, PadSelector, VaultState};

fn pad_with(id: &str, size: u64, segments: &[(u64, u64)]) -> Pad {
    Pad {
        id: id.to_string(),
        file_name: format!("{id}.pad"),
        size,
        used_segments: segments
            .iter()
            .map(|&(start, end)| UsedSegment { start, end })
            .collect(),
        is_fully_used: false,
    }
}

fn vault_with_one_pad(size: u64) -> VaultState {
    let mut v = VaultState::new();
    v.add_pad("p1".to_string(), "p1.pad".to_string(), size);
    v
}

fn explicit(id: &str) -> PadSelector {
    PadSelector::Explicit(id.to_string())
}

#[test]
fn first_fit_allocation_scenario() {
    let mut v = vault_with_one_pad(100);
    let id = "p1".to_string();
    assert_eq!(v.get_pad(&id).unwrap().find_available_segment(40), Some(0));
    assert_eq!(v.record_segment(&id, 0, 40), Ok(false));
    assert_eq!(v.get_pad(&id).unwrap().find_available_segment(40), Some(40));
    assert_eq!(v.record_segment(&id, 40, 40), Ok(false));
    assert_eq!(v.get_pad(&id).unwrap().find_available_segment(25), None);
    assert_eq!(v.get_pad(&id).unwrap().total_used_bytes(), 80);
}

#[test]
fn first_fit_takes_lowest_gap() {
    let p = pad_with("p", 100, &[(50, 60), (10, 20), (25, 30)]);
    assert_eq!(p.find_available_segment(10), Some(0));
    assert_eq!(p.find_available_segment(11), Some(30));
    assert_eq!(p.find_available_segment(5), Some(0));
    assert_eq!(p.find_available_segment(40), Some(60));
    assert_eq!(p.find_available_segment(41), None);
    let q = pad_with("q", 100, &[(0, 10), (12, 20)]);
    assert_eq!(q.find_available_segment(2), Some(10));
    assert_eq!(q.find_available_segment(3), Some(20));
}

#[test]
fn zero_length_fits_at_start_unless_full() {
    let p = pad_with("p", 10, &[(0, 4)]);
    assert_eq!(p.find_available_segment(0), Some(0));
    let full = pad_with("f", 10, &[(0, 10)]);
    assert_eq!(full.find_available_segment(0), None);
    let empty = pad_with("e", 0, &[]);
    assert_eq!(empty.find_available_segment(0), None);
}

#[test]
fn usage_counts_and_fullness() {
    let p = pad_with("p", 100, &[(0, 30), (50, 70)]);
    assert_eq!(p.total_used_bytes(), 50);
    assert!(!p.is_fully_used());
    assert!(p.is_fully_used_before(50));
    assert!(!p.is_fully_used_before(51));
    let full = pad_with("f", 10, &[(5, 10), (0, 5)]);
    assert!(full.is_fully_used());
    assert!(full.is_fully_used_before(100));
}

#[test]
fn explicit_segment_checks() {
    let p = pad_with("p", 100, &[(10, 20)]);
    assert_eq!(p.check_explicit_segment(20, 80), Ok(()));
    assert_eq!(
        p.check_explicit_segment(21, 80),
        Err(VaultError::SegmentOutOfBounds { pad_id: "p".to_string(), start: 21, length: 80, size: 100 })
    );
    assert_eq!(
        p.check_explicit_segment(u64::MAX, 2),
        Err(VaultError::SegmentOutOfBounds { pad_id: "p".to_string(), start: u64::MAX, length: 2, size: 100 })
    );
    assert_eq!(
        p.check_explicit_segment(5, 6),
        Err(VaultError::SegmentOverlap { pad_id: "p".to_string(), start: 5, length: 6 })
    );
    assert_eq!(p.check_explicit_segment(5, 5), Ok(()));
}

#[test]
fn encryptions_never_overlap() {
    let mut v = vault_with_one_pad(64);
    let sizes = [10u64, 5, 20, 1, 28];
    for len in sizes {
        let plan = v.plan_encrypt(len, &PadSelector::Automatic, None).unwrap();
        let segment = vec![0xAAu8; len as usize];
        let plaintext = vec![0x55u8; len as usize];
        v.encrypt_bytes(&plan, segment, &plaintext).unwrap();
    }
    let pad = v.get_pad(&"p1".to_string()).unwrap();
    assert!(pad.check_wf());
    let segs = &pad.used_segments;
    for i in 0..segs.len() {
        for j in 0..segs.len() {
            if i != j {
                let (a, b) = (segs[i], segs[j]);
                assert!(!(a.start < b.end && a.end > b.start));
            }
        }
    }
    assert_eq!(pad.total_used_bytes(), 64);
    assert!(pad.is_fully_used);
}

#[test]
fn encrypt_pipeline_for_hello() {
    let mut v = vault_with_one_pad(5);
    let plan = v.plan_encrypt(5, &explicit("p1"), None).unwrap();
    assert_eq!(plan.start, 0);
    assert_eq!(plan.file_name, "p1.pad");
    let (ciphertext, outcome) = v.encrypt_bytes(&plan, vec![1, 2, 3, 4, 5], b"HELLO").unwrap();
    assert_eq!(ciphertext, vec![b'H' ^ 1, b'E' ^ 2, b'L' ^ 3, b'L' ^ 4, b'O' ^ 5]);
    assert_eq!(
        outcome.metadata,
        CiphertextMetadata {
            pad_id: "p1".to_string(),
            start_byte: 0,
            length: 5,
            ciphertext_hash: content_hash(&ciphertext),
        }
    );
    assert!(outcome.relocate);

    let request = DecryptRequest::WithMetadata {
        metadata: outcome.metadata.clone(),
        actual_hash: content_hash(&ciphertext),
    };
    let dplan = v.plan_decrypt(&request).unwrap();
    assert_eq!(dplan.area, StorageArea::Used);
    assert_eq!(dplan.area.dir_name(), "used");
    let (plaintext, record) = v.decrypt_bytes(&dplan, vec![1, 2, 3, 4, 5], &ciphertext).unwrap();
    assert_eq!(plaintext, b"HELLO".to_vec());
    assert_eq!(record, DecryptRecord::AlreadyRecorded);
}

#[test]
fn decrypt_bookkeeping_counts_once() {
    let mut receiver = vault_with_one_pad(100);
    let pad = vec![7u8; 30];
    let ciphertext: Vec<u8> = b"attack at dawn, not at dusk!!!".iter().map(|b| b ^ 7).collect();
    let request = DecryptRequest::Manual { pad_id: "p1".to_string(), start_byte: 10, length: 30 };
    let plan = receiver.plan_decrypt(&request).unwrap();
    assert_eq!(plan.area, StorageArea::Available);
    let (p1, first) = receiver.decrypt_bytes(&plan, pad.clone(), &ciphertext).unwrap();
    assert_eq!(first, DecryptRecord::Recorded { relocate: false });
    let used_after_first = receiver.get_pad(&"p1".to_string()).unwrap().total_used_bytes();
    let plan2 = receiver.plan_decrypt(&request).unwrap();
    let (p2, second) = receiver.decrypt_bytes(&plan2, pad, &ciphertext).unwrap();
    assert_eq!(p1, p2);
    assert_eq!(p1, b"attack at dawn, not at dusk!!!".to_vec());
    assert_eq!(second, DecryptRecord::AlreadyRecorded);
    let pad_after = receiver.get_pad(&"p1".to_string()).unwrap();
    assert_eq!(used_after_first, 30);
    assert_eq!(pad_after.total_used_bytes(), 30);
    assert_eq!(pad_after.used_segments.len(), 1);
}

#[test]
fn integrity_gate_refuses_tampered_ciphertext() {
    let mut v = vault_with_one_pad(16);
    let plan = v.plan_encrypt(4, &explicit("p1"), None).unwrap();
    let (ciphertext, outcome) = v.encrypt_bytes(&plan, vec![9, 9, 9, 9], b"data").unwrap();
    let mut tampered = ciphertext.clone();
    tampered[0] ^= 1;
    let request = DecryptRequest::WithMetadata {
        metadata: outcome.metadata.clone(),
        actual_hash: content_hash(&tampered),
    };
    let before = v.clone();
    assert_eq!(
        v.plan_decrypt(&request),
        Err(VaultError::IntegrityMismatch {
            expected_hash: outcome.metadata.ciphertext_hash.clone(),
            actual_hash: content_hash(&tampered),
        })
    );
    assert_eq!(v.pads.len(), before.pads.len());
    assert_eq!(v.pads[0].used_segments, before.pads[0].used_segments);
}

#[test]
fn fully_used_transition_happens_once() {
    let mut v = vault_with_one_pad(10);
    let id = "p1".to_string();
    let plan = v.plan_encrypt(6, &PadSelector::Automatic, None).unwrap();
    let (_, first) = v.encrypt_bytes(&plan, vec![0; 6], b"sixsix").unwrap();
    assert!(!first.relocate);
    assert!(!v.get_pad(&id).unwrap().is_fully_used);
    let plan = v.plan_encrypt(4, &PadSelector::Automatic, None).unwrap();
    assert_eq!(plan.start, 6);
    let (_, second) = v.encrypt_bytes(&plan, vec![0; 4], b"four").unwrap();
    assert!(second.relocate);
    assert!(v.get_pad(&id).unwrap().is_fully_used);
    assert_eq!(v.get_pad(&id).unwrap().storage_area(), StorageArea::Used);
    assert_eq!(
        v.plan_encrypt(1, &explicit("p1"), None),
        Err(VaultError::InsufficientSpace { pad_id: id.clone(), length: 1 })
    );
    assert_eq!(
        v.plan_encrypt(1, &PadSelector::Automatic, None),
        Err(VaultError::NoSuitablePad { length: 1 })
    );
    assert_eq!(v.record_segment(&id, 0, 0), Ok(false));
}

#[test]
fn selection_errors() {
    let mut v = vault_with_one_pad(10);
    assert_eq!(
        v.plan_encrypt(3, &explicit("nope"), None),
        Err(VaultError::PadNotFound { pad_id: "nope".to_string() })
    );
    assert_eq!(
        v.plan_encrypt(11, &PadSelector::Automatic, None),
        Err(VaultError::NoSuitablePad { length: 11 })
    );
    assert_eq!(
        v.plan_encrypt(11, &explicit("p1"), None),
        Err(VaultError::InsufficientSpace { pad_id: "p1".to_string(), length: 11 })
    );
    assert_eq!(
        v.plan_encrypt(5, &explicit("p1"), Some(6)),
        Err(VaultError::SegmentOutOfBounds { pad_id: "p1".to_string(), start: 6, length: 5, size: 10 })
    );
    v.record_segment(&"p1".to_string(), 2, 3).unwrap();
    assert_eq!(
        v.plan_encrypt(2, &explicit("p1"), Some(3)),
        Err(VaultError::SegmentOverlap { pad_id: "p1".to_string(), start: 3, length: 2 })
    );
    let plan = v.plan_encrypt(2, &explicit("p1"), Some(5)).unwrap();
    assert_eq!((plan.start, plan.length), (5, 2));
    let auto = v.plan_encrypt(3, &PadSelector::Automatic, None).unwrap();
    assert_eq!(auto.start, 5);
}

#[test]
fn stale_full_flag_refuses_pad() {
    let mut p = pad_with("s", 10, &[(0, 2)]);
    p.is_fully_used = true;
    let v = VaultState::from_pads(vec![p]).unwrap();
    assert_eq!(
        v.plan_encrypt(3, &explicit("s"), None),
        Err(VaultError::PadAlreadyFullyUsed { pad_id: "s".to_string() })
    );
}

#[test]
fn automatic_selection_skips_pads_without_room() {
    let v = VaultState::from_pads(vec![
        pad_with("a", 10, &[(0, 8)]),
        pad_with("b", 10, &[(0, 3)]),
        pad_with("c", 100, &[]),
    ])
    .unwrap();
    let plan = v.plan_encrypt(5, &PadSelector::Automatic, None).unwrap();
    assert_eq!(plan.pad_id, "b");
    assert_eq!(plan.start, 3);
}

#[test]
fn read_errors_and_long_input() {
    let mut v = vault_with_one_pad(10);
    let plan = v.plan_encrypt(4, &PadSelector::Automatic, None).unwrap();
    assert!(matches!(
        plan.start_stream(vec![0; 3]),
        Err(VaultError::PadReadError { wanted: 4, got: 3 })
    ));
    assert_eq!(
        v.encrypt_bytes(&plan, vec![0; 3], b"abcd"),
        Err(VaultError::PadReadError { wanted: 4, got: 3 })
    );
    assert_eq!(
        v.encrypt_bytes(&plan, vec![0; 4], b"abcde"),
        Err(VaultError::InputLongerThanSegment { segment_length: 4 })
    );
    assert_eq!(v.get_pad(&"p1".to_string()).unwrap().total_used_bytes(), 0);
}

#[test]
fn decrypt_plan_errors() {
    let mut v = vault_with_one_pad(10);
    let id = "p1".to_string();
    v.record_segment(&id, 0, 4).unwrap();
    let manual = |pad_id: &str, start_byte: u64, length: u64| DecryptRequest::Manual {
        pad_id: pad_id.to_string(),
        start_byte,
        length,
    };
    assert_eq!(
        v.plan_decrypt(&manual("x", 0, 1)),
        Err(VaultError::PadNotFound { pad_id: "x".to_string() })
    );
    assert_eq!(
        v.plan_decrypt(&manual("p1", 8, 3)),
        Err(VaultError::PadReadError { wanted: 3, got: 2 })
    );
    assert_eq!(
        v.plan_decrypt(&manual("p1", 12, 1)),
        Err(VaultError::PadReadError { wanted: 1, got: 0 })
    );
    assert!(v.plan_decrypt(&manual("p1", 2, 4)).is_ok());
    assert_eq!(v.get_pad(&id).unwrap().total_used_bytes(), 4);
    assert!(v.plan_decrypt(&manual("p1", 0, 4)).is_ok());
    assert!(v.plan_decrypt(&manual("p1", 4, 6)).is_ok());
}

#[test]
fn loaded_state_is_validated() {
    assert_eq!(
        VaultState::from_pads(vec![pad_with("a", 10, &[(0, 5), (4, 6)])]).unwrap_err(),
        VaultError::StateIoError
    );
    assert_eq!(
        VaultState::from_pads(vec![pad_with("a", 10, &[(0, 11)])]).unwrap_err(),
        VaultError::StateIoError
    );
    assert_eq!(
        VaultState::from_pads(vec![pad_with("a", 10, &[(3, 3)])]).unwrap_err(),
        VaultError::StateIoError
    );
    assert_eq!(
        VaultState::from_pads(vec![pad_with("a", 10, &[]), pad_with("a", 5, &[])]).unwrap_err(),
        VaultError::StateIoError
    );
    assert!(VaultState::from_pads(vec![pad_with("a", 10, &[(0, 5)]), pad_with("b", 5, &[])]).is_ok());
    assert!(!pad_with("a", 10, &[(5, 8), (0, 6)]).check_wf());
}

#[test]
fn add_replace_and_remove_pads() {
    let mut v = vault_with_one_pad(10);
    v.add_pad("p2".to_string(), "p2.pad".to_string(), 20);
    v.record_segment(&"p1".to_string(), 0, 5).unwrap();
    v.add_pad("p1".to_string(), "other.pad".to_string(), 30);
    assert_eq!(v.pads.len(), 2);
    assert_eq!(v.pads[0].id, "p1");
    assert_eq!(v.pads[0].file_name, "other.pad");
    assert_eq!(v.pads[0].size, 30);
    assert!(v.pads[0].used_segments.is_empty());
    let removed = v.remove_pad(&"p1".to_string()).unwrap();
    assert_eq!(removed.size, 30);
    assert_eq!(v.pads.len(), 1);
    assert!(v.remove_pad(&"p1".to_string()).is_none());
    assert!(v.get_pad(&"p1".to_string()).is_none());
}

#[test]
fn summary_totals() {
    let mut full = pad_with("f", 10, &[(0, 10)]);
    full.is_fully_used = true;
    let v = VaultState::from_pads(vec![pad_with("a", 100, &[(0, 30)]), full, pad_with("c", 50, &[])]).unwrap();
    let s = v.usage_summary();
    assert_eq!(s.total_pads, 3);
    assert_eq!(s.available_pads, 2);
    assert_eq!(s.fully_used_pads, 1);
    assert_eq!(s.total_storage_bytes, 160);
    assert_eq!(s.total_used_bytes, 40);
    assert_eq!(s.remaining_bytes, 120);
}

#[test]
fn empty_pad_is_fully_used_from_the_start() {
    let mut v = vault_with_one_pad(0);
    let pad = v.get_pad(&"p1".to_string()).unwrap();
    assert!(pad.is_fully_used);
    assert!(pad.is_fully_used());
    assert_eq!(pad.storage_area(), StorageArea::Used);
    assert_eq!(pad.find_available_segment(0), None);
    assert_eq!(
        v.plan_encrypt(0, &explicit("p1"), None),
        Err(VaultError::InsufficientSpace { pad_id: "p1".to_string(), length: 0 })
    );
    assert_eq!(v.record_segment(&"p1".to_string(), 0, 0), Ok(false));
    v.add_pad("p2".to_string(), "p2.pad".to_string(), 3);
    assert!(!v.get_pad(&"p2".to_string()).unwrap().is_fully_used);
}

#[test]
fn overlapping_manual_decrypt_succeeds_without_recording() {
    let mut v = vault_with_one_pad(100);
    let id = "p1".to_string();
    v.record_segment(&id, 0, 40).unwrap();
    let request = DecryptRequest::Manual { pad_id: id.clone(), start_byte: 20, length: 40 };
    let plan = v.plan_decrypt(&request).unwrap();
    assert_eq!((plan.start, plan.length), (20, 40));
    let pad_bytes: Vec<u8> = (0..40u8).collect();
    let ciphertext = vec![0xFFu8; 40];
    let (plaintext, record) = v.decrypt_bytes(&plan, pad_bytes.clone(), &ciphertext).unwrap();
    assert_eq!(plaintext, pad_bytes.iter().map(|b| b ^ 0xFF).collect::<Vec<u8>>());
    assert_eq!(record, DecryptRecord::Overlapping);
    let pad = v.get_pad(&id).unwrap();
    assert_eq!(pad.used_segments, vec![UsedSegment { start: 0, end: 40 }]);
    assert_eq!(pad.total_used_bytes(), 40);
}

#[test]
fn decrypt_bookkeeping_errors() {
    let mut v = vault_with_one_pad(10);
    assert_eq!(
        v.note_decrypted(&"zz".to_string(), 0, 1),
        Err(VaultError::PadNotFound { pad_id: "zz".to_string() })
    );
    assert_eq!(
        v.note_decrypted(&"p1".to_string(), 9, 2),
        Err(VaultError::SegmentOutOfBounds { pad_id: "p1".to_string(), start: 9, length: 2, size: 10 })
    );
    assert_eq!(v.note_decrypted(&"p1".to_string(), 0, 10), Ok(DecryptRecord::Recorded { relocate: true }));
    assert!(v.get_pad(&"p1".to_string()).unwrap().is_fully_used);
}

#[test]
fn allocator_tolerates_malformed_segments() {
    let reversed = pad_with("m", 100, &[(30, 10), (50, 60)]);
    let _ = reversed.find_available_segment(5);
    let outside = pad_with("o", 10, &[(5, 500), (0, 3)]);
    assert_eq!(outside.find_available_segment(3), None);
    let overlapping = pad_with("x", 100, &[(0, 50), (20, 30), (u64::MAX - 1, u64::MAX)]);
    let _ = overlapping.find_available_segment(10);
    assert_eq!(pad_with("y", 100, &[(10, 20), (0, 5), (15, 25)]).find_available_segment(4), Some(5));
}
