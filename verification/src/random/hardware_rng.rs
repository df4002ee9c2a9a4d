//! The hardware random number generator (RDRAND/RDSEED on x86_64).
//!
//! Whether the CPU has one is read from the flags that `/proc/cpuinfo`
//! lists; reading that file is I/O and happens outside the library, which
//! decides from its text.

use vstd::prelude::*;

use crate::error::{HalError, HalResult};
use crate::random::{RandomInterface, MAX_RANDOM_BYTES};
use crate::text::{chars_of, contains, contains_text};

verus! {

/// Whether a `/proc/cpuinfo` text lists the `rdrand` or the `rdseed` flag.
pub open spec fn cpuinfo_lists_hardware_rng(cpuinfo: Seq<char>) -> bool {
    contains_text(cpuinfo, "rdrand"@) || contains_text(cpuinfo, "rdseed"@)
}

/// Whether a `/proc/cpuinfo` text lists a hardware RNG instruction (see
/// `cpuinfo_lists_hardware_rng`).
pub fn cpuinfo_has_hardware_rng(cpuinfo: &str) -> (b: bool)
    ensures
        b == cpuinfo_lists_hardware_rng(cpuinfo@),
{
    let text = chars_of(cpuinfo);
    let has_rdrand = contains(&text, &chars_of("rdrand"));
    let has_rdseed = contains(&text, &chars_of("rdseed"));
    has_rdrand || has_rdseed
}

/// Whether a hardware RNG is available, given the text of `/proc/cpuinfo`
/// when it could be read on an x86_64 machine (`None` otherwise).
pub fn hardware_rng_available(cpuinfo: Option<&str>) -> (b: bool)
    ensures
        b == match cpuinfo {
            Some(c) => cpuinfo_lists_hardware_rng(c@),
            None => false,
        },
{
    match cpuinfo {
        Some(c) => cpuinfo_has_hardware_rng(c),
        None => false,
    }
}

/// `length` random bytes from the hardware RNG, refused with `NotSupported`
/// when `rng_available` says there is none; the bytes come from the system
/// random source, as `RandomInterface::generate_random_bytes` gives them.
pub fn hardware_random_bytes(rng_available: bool, length: usize) -> (r: HalResult<Vec<u8>>)
    ensures
        !rng_available ==> (r matches Err(HalError::NotSupported(m)) && m@
            == "Hardware RNG not available on this platform"@),
        rng_available && length > MAX_RANDOM_BYTES ==> (r matches Err(
            HalError::InvalidParameter(m),
        ) && m@ == "Requested random data too large (max 1MB)"@),
        rng_available && length <= MAX_RANDOM_BYTES ==> (r matches Ok(v) ==> v@.len() == length),
        rng_available && length <= MAX_RANDOM_BYTES ==> (r matches Err(e) ==> (
        e matches HalError::CryptographicError(m) && m@ == "Failed to generate random bytes"@)),
        rng_available && length == 0 ==> r is Ok,
{
    if !rng_available {
        return Err(
            HalError::NotSupported(String::from_str("Hardware RNG not available on this platform")),
        );
    }
    let random_interface = RandomInterface::new();
    random_interface.generate_random_bytes(length)
}

} // verus!
