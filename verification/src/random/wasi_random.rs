//! WASI-style random functions on the `getrandom` source.

use vstd::prelude::*;

use crate::error::{HalError, HalResult};
use crate::random::{le_u32, le_u64, u32_from_le_bytes, u64_from_le_bytes};
use crate::text::{push_str, string_from_chars};

verus! {

#[verifier::external_type_specification]
#[verifier::external_body]
pub struct ExGetrandomError(getrandom::Error);

/// `getrandom::getrandom`: fills `dest` from the operating system's random
/// source. The bytes are chance, so only that the buffer keeps its length is
/// stated, and that an empty buffer is never an error (`getrandom_uninit`
/// asks the system for nothing then).
#[verifier::external_body]
fn getrandom_fill(dest: &mut [u8]) -> (r: Result<(), getrandom::Error>)
    ensures
        final(dest)@.len() == old(dest)@.len(),
        old(dest)@.len() == 0 ==> r is Ok,
{
    getrandom::getrandom(dest)
}

/// The `Display` text of a `getrandom` error (its `to_string`); what the
/// text says is not stated.
#[verifier::external_body]
fn getrandom_error_text(e: &getrandom::Error) -> String {
    e.to_string()
}

/// The prefix of the message of a failed fill.
pub open spec fn getrandom_failure_prefix() -> Seq<char> {
    "getrandom failed: "@
}

/// What a fill by `getrandom` comes to: `Ok` when the source succeeded, else
/// a `CryptographicError` whose message is `getrandom failed: ` followed by
/// the text of the source's error.
pub fn random_get_outcome(filled: Result<(), getrandom::Error>) -> (r: HalResult<()>)
    ensures
        filled is Ok <==> r is Ok,
        r matches Err(e) ==> (e matches HalError::CryptographicError(m)
            && getrandom_failure_prefix().is_prefix_of(m@)),
{
    match filled {
        Ok(()) => Ok(()),
        Err(e) => {
            let mut msg: Vec<char> = Vec::new();
            push_str(&mut msg, "getrandom failed: ");
            let text = getrandom_error_text(&e);
            let ghost prefix = msg@;
            push_str(&mut msg, text.as_str());
            let m = string_from_chars(msg);
            assert(m@.subrange(0, prefix.len() as int) =~= prefix);
            Err(HalError::CryptographicError(m))
        },
    }
}

/// Fills `buffer` with random bytes (WASI `random_get`).
pub fn random_get(buffer: &mut [u8]) -> (r: HalResult<()>)
    ensures
        final(buffer)@.len() == old(buffer)@.len(),
        old(buffer)@.len() == 0 ==> r is Ok,
        r matches Err(e) ==> (e matches HalError::CryptographicError(m)
            && getrandom_failure_prefix().is_prefix_of(m@)),
{
    let filled = getrandom_fill(buffer);
    random_get_outcome(filled)
}

/// A random `u32`: four random bytes read little-endian.
pub fn random_u32() -> (r: HalResult<u32>)
    ensures
        r matches Ok(v) ==> exists|b: Seq<u8>| b.len() == 4 && v == le_u32(b),
        r matches Err(e) ==> (e matches HalError::CryptographicError(m)
            && getrandom_failure_prefix().is_prefix_of(m@)),
{
    let mut buffer: Vec<u8> = vec![0u8; 4];
    random_get(buffer.as_mut_slice())?;
    Ok(u32_from_le_bytes(buffer.as_slice()))
}

/// A random `u64`: eight random bytes read little-endian.
pub fn random_u64() -> (r: HalResult<u64>)
    ensures
        r matches Ok(v) ==> exists|b: Seq<u8>| b.len() == 8 && v == le_u64(b),
        r matches Err(e) ==> (e matches HalError::CryptographicError(m)
            && getrandom_failure_prefix().is_prefix_of(m@)),
{
    let mut buffer: Vec<u8> = vec![0u8; 8];
    random_get(buffer.as_mut_slice())?;
    Ok(u64_from_le_bytes(buffer.as_slice()))
}

} // verus!
