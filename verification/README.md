# elastic_tee_hal

Hardware-abstraction services for confidential-computing guests, written in
Verus: the library's functions carry contracts that Verus proves (a few,
such as the constructor of the random interface, have nothing to state).

- `src/random.rs` (with `random/wasi_random.rs`, `random/hardware_rng.rs`):
  random bytes, integers, ranges, UUIDs, nonces, salts and key material from
  the system random source (`ring`, `getrandom`), and the byte counts on
  which an entropy estimate is made.
- `src/resources.rs`: the bookkeeping of allocated memory, CPU cores,
  storage, network bandwidth and GPU memory against their limits, with the
  laws that govern it (a grant undone by its release, counters equal to what
  the live allocations hold), and the reading of platform limits from
  `/proc/meminfo` text.
- `src/sev_vtpm.rs`: the checks and the assembly of Azure SEV-SNP vTPM
  evidence (hex-encoded quote, base64 VCEK taken from its PEM text).
- `src/text.rs`: characters, lines, words, trimming, decimal and hex digits.

`app/` holds what Verus does not check: file and device probing, the vTPM
and IMDS calls, the asynchronous shared resource interface, serde forms of
the types, JSON output and floating-point statistics.
