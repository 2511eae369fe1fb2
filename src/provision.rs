//! Naming, sizing and filling new pads.

use vstd::prelude::*;
use vstd::string::StringExecFns;

use crate::error::VaultError;

verus! {

/// Bytes in one megabyte, the unit in which pad sizes are requested.
pub const BYTES_PER_MEGABYTE: u64 = 1024 * 1024;

/// The name and size of a pad about to be generated.
#[derive(Debug, Clone, PartialEq, Eq)]
pub struct NewPad {
    pub id: String,
    pub file_name: String,
    pub size: u64,
}

/// Relies on uuid's `Builder::from_random_bytes`, which only sets the version
/// and variant bits of the 16 bytes, and on `Uuid`'s `Display`, which writes
/// the hyphenated form of 36 characters.
#[verifier::external_body]
fn pad_id_from_random_bytes(bytes: &Vec<u8>) -> (r: String)
    requires
        bytes@.len() == 16,
    ensures
        r@.len() == 36,
{
    let mut raw = [0u8; 16];
    raw.copy_from_slice(bytes);
    uuid::Builder::from_random_bytes(raw).into_uuid().to_string()
}

/// Relies on rand's `OsRng` through `TryRngCore::try_fill_bytes`: the buffer
/// keeps its length, and the result says whether the operating system's
/// random source filled it.
#[verifier::external_body]
fn fill_from_os(buf: &mut Vec<u8>) -> (ok: bool)
    ensures
        final(buf)@.len() == old(buf)@.len(),
{
    rand::TryRngCore::try_fill_bytes(&mut rand::rngs::OsRng, buf.as_mut_slice()).is_ok()
}

/// Name of the file that holds a pad: its id with the `.pad` extension.
pub fn pad_file_name(id: &String) -> (r: String)
    ensures
        r@ == id@ + ".pad"@,
{
    id.clone().concat(".pad")
}

/// Number of bytes in `megabytes` megabytes, if it fits in a `u64`.
pub fn megabytes_to_bytes(megabytes: u64) -> (r: Option<u64>)
    ensures
        megabytes * BYTES_PER_MEGABYTE <= u64::MAX ==> r == Some((megabytes * BYTES_PER_MEGABYTE) as u64),
        megabytes * BYTES_PER_MEGABYTE > u64::MAX ==> r is None,
{
    megabytes.checked_mul(BYTES_PER_MEGABYTE)
}

/// Names a new pad of `size_mb` megabytes: a fresh random id (a version 4
/// UUID drawn from the operating system's random source), the file name
/// derived from it, and the size in bytes. A size that does not fit in a
/// `u64` is refused; otherwise only a failing random source fails.
pub fn prepare_new_pad(size_mb: u64) -> (r: Result<NewPad, VaultError>)
    ensures
        (r == Err::<NewPad, VaultError>(VaultError::PadTooLarge { size_mb })) <==> size_mb
            * BYTES_PER_MEGABYTE > u64::MAX,
        r is Err && size_mb * BYTES_PER_MEGABYTE <= u64::MAX ==> r == Err::<NewPad, VaultError>(
            VaultError::PadWriteError,
        ),
        r matches Ok(p) ==> p.size == size_mb * BYTES_PER_MEGABYTE && p.file_name@ == p.id@
            + ".pad"@ && p.id@.len() == 36,
{
    let size = match megabytes_to_bytes(size_mb) {
        None => {
            return Err(VaultError::PadTooLarge { size_mb });
        },
        Some(size) => size,
    };
    let bytes = match generate_pad_material(16) {
        Ok(bytes) => bytes,
        Err(_) => {
            return Err(VaultError::PadWriteError);
        },
    };
    let id = pad_id_from_random_bytes(&bytes);
    let file_name = pad_file_name(&id);
    Ok(NewPad { id, file_name, size })
}

/// `size` bytes of pad material from the operating system's random source.
pub fn generate_pad_material(size: usize) -> (r: Result<Vec<u8>, VaultError>)
    ensures
        r matches Ok(v) ==> v@.len() == size,
        r matches Err(e) ==> e == VaultError::PadWriteError,
{
    let mut buf = vec![0u8; size];
    if fill_from_os(&mut buf) {
        Ok(buf)
    } else {
        Err(VaultError::PadWriteError)
    }
}

} // verus!
