use otp_vault::error::VaultError;
use otp_vault::provision::{
    generate_pad_material, megabytes_to_bytes, pad_file_name, prepare_new_pad, BYTES_PER_MEGABYTE,
};

#[test]
fn file_name_appends_extension() {
    assert_eq!(pad_file_name(&"abc".to_string()), "abc.pad");
}

#[test]
fn megabytes_convert_with_overflow_check() {
    assert_eq!(megabytes_to_bytes(1), Some(1_048_576));
    assert_eq!(megabytes_to_bytes(0), Some(0));
    assert_eq!(megabytes_to_bytes(u64::MAX / BYTES_PER_MEGABYTE + 1), None);
}

#[test]
fn new_pad_gets_uuid_name() {
    let p = prepare_new_pad(2).unwrap();
    assert_eq!(
        prepare_new_pad(u64::MAX),
        Err(VaultError::PadTooLarge { size_mb: u64::MAX })
    );
    assert_eq!(p.size, 2 * 1024 * 1024);
    assert_eq!(p.id.len(), 36);
    assert_eq!(p.file_name, format!("{}.pad", p.id));
    let q = prepare_new_pad(2).unwrap();
    assert_ne!(p.id, q.id);
    assert_eq!(
        prepare_new_pad(u64::MAX / BYTES_PER_MEGABYTE + 1),
        Err(VaultError::PadTooLarge { size_mb: u64::MAX / BYTES_PER_MEGABYTE + 1 })
    );
    assert_eq!(prepare_new_pad(0).unwrap().size, 0);
}

#[test]
fn pad_material_has_requested_length() {
    let m = generate_pad_material(4096).unwrap();
    assert_eq!(m.len(), 4096);
    assert!(m.iter().any(|&b| b != 0));
    let e: Result<Vec<u8>, VaultError> = generate_pad_material(0);
    assert_eq!(e, Ok(vec![]));
}
