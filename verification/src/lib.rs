//! Hardware-abstraction services for confidential-computing guests: random
//! number generation, accounting of allocated resources, and assembly of
//! Azure SEV-SNP (vTPM) attestation evidence.

pub mod error;
pub mod random;
pub mod resources;
pub mod sev_vtpm;
pub mod text;
