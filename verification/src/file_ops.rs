//! Moving files between the staging folder and the game directory.
use vstd::prelude::*;

use crate::paths::{first_component, path_first_component};

verus! {

/// Whether two paths are on the same volume: their first components (a drive prefix on
/// Windows, the root elsewhere) are the same.
pub open spec fn on_same_volume(path_a: Seq<char>, path_b: Seq<char>) -> bool {
    path_first_component(path_a) == path_first_component(path_b)
}

/// Checks whether two paths are on the same volume by comparing their first components.
pub fn same_volume(path_a: &str, path_b: &str) -> (r: bool)
    ensures
        r == on_same_volume(path_a@, path_b@),
{
    let root_a = first_component(path_a);
    let root_b = first_component(path_b);
    match (root_a, root_b) {
        (Some(x), Some(y)) => x == y,
        (None, None) => true,
        _ => false,
    }
}

/// Being on the same volume is an equivalence: every path is on its own volume, the
/// relation is symmetric, and two paths on the volume of a third are on the same volume.
pub proof fn lemma_same_volume_is_equivalence(a: Seq<char>, b: Seq<char>, c: Seq<char>)
    ensures
        on_same_volume(a, a),
        on_same_volume(a, b) == on_same_volume(b, a),
        on_same_volume(a, b) && on_same_volume(b, c) ==> on_same_volume(a, c),
{
}

/// Progress of a copy that replaces a rename across drives.
#[derive(Debug, Clone)]
pub struct MoveProgressEvent {
    pub file: String,
    pub percent: u32,
}

/// Whether an OS error code is a cross-device rename failure:
/// 17 (Windows `ERROR_NOT_SAME_DEVICE`) or 18 (Linux `EXDEV`).
pub open spec fn cross_device_code(code: Option<i32>) -> bool {
    code == Some(17i32) || code == Some(18i32)
}

/// Decides on the raw OS code of a failed rename whether the move falls back to
/// copy-and-delete.
pub fn is_cross_device_code(code: Option<i32>) -> (r: bool)
    ensures
        r == cross_device_code(code),
{
    match code {
        Some(c) => c == 17 || c == 18,
        None => false,
    }
}

/// Name for the raw OS error code that an I/O error carries, if any, as
/// `std::io::Error::raw_os_error` reports it.
pub uninterp spec fn io_os_code(e: std::io::Error) -> Option<i32>;

/// Calls `std::io::Error::raw_os_error`. The contract claims only that the code is a
/// function of the error, named `io_os_code`.
#[verifier::external_body]
fn raw_os_error(e: &std::io::Error) -> (r: Option<i32>)
    ensures
        r == io_os_code(*e),
{
    e.raw_os_error()
}

/// Detects whether an I/O error is a cross-device rename failure: its raw OS code, if any,
/// is decided by `is_cross_device_code`.
pub fn is_cross_device_error(e: &std::io::Error) -> (r: bool)
    ensures
        r == cross_device_code(io_os_code(*e)),
{
    is_cross_device_code(raw_os_error(e))
}

/// The percentage reported while copying: `bytes_copied * 100 / max(file_size, 1)`,
/// truncated to 32 bits.
pub open spec fn percent_of(bytes_copied: nat, file_size: nat) -> int {
    let size: nat = if file_size == 0 { 1 } else { file_size };
    ((bytes_copied * 100) / size) as int % 0x1_0000_0000
}

/// The progress percentage after `bytes_copied` bytes of a `file_size`-byte file.
pub fn progress_percent(bytes_copied: u64, file_size: u64) -> (r: u32)
    requires
        bytes_copied * 100 <= u64::MAX,
    ensures
        r == percent_of(bytes_copied as nat, file_size as nat),
{
    let size: u64 = if file_size == 0 { 1 } else { file_size };
    let scaled: u64 = bytes_copied * 100;
    let q: u64 = scaled / size;
    let r = q as u32;
    assert(r == q % 0x1_0000_0000) by (bit_vector)
        requires
            r == q as u32,
    ;
    r
}

} // verus!
