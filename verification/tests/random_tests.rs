use elastic_tee_hal::random::hardware_rng::{
    cpuinfo_has_hardware_rng, hardware_random_bytes, hardware_rng_available,
};
use elastic_tee_hal::random::wasi_random::{random_get, random_u32, random_u64};
use elastic_tee_hal::random::{
    byte_frequencies, format_uuid_v4, u32_from_le_bytes, u64_from_le_bytes, value_in_range,
    RandomInterface,
};
use elastic_tee_hal::error::HalError;

#[test]
fn test_random_bytes_generation() {
    let rng = RandomInterface::new();

    let bytes1 = rng.generate_random_bytes(32).unwrap();
    let bytes2 = rng.generate_random_bytes(32).unwrap();

    assert_eq!(bytes1.len(), 32);
    assert_eq!(bytes2.len(), 32);
    assert_ne!(bytes1, bytes2); // Should be different
}

#[test]
fn test_random_integers() {
    let rng = RandomInterface::new();

    let val1 = rng.generate_random_u32().unwrap();
    let val2 = rng.generate_random_u32().unwrap();

    // Very unlikely to be the same
    assert_ne!(val1, val2);

    let val3 = rng.generate_random_u64().unwrap();
    let val4 = rng.generate_random_u64().unwrap();

    assert_ne!(val3, val4);
}

#[test]
fn test_random_range() {
    let rng = RandomInterface::new();

    for _ in 0..100 {
        let val = rng.generate_random_range(10, 20).unwrap();
        assert!((10..20).contains(&val));
    }

    // Test error case
    assert!(rng.generate_random_range(20, 10).is_err());
}

#[test]
fn test_uuid_generation() {
    let rng = RandomInterface::new();

    let uuid1 = rng.generate_uuid_v4().unwrap();
    let uuid2 = rng.generate_uuid_v4().unwrap();

    assert_ne!(uuid1, uuid2);
    assert_eq!(uuid1.len(), 36); // Standard UUID length with hyphens

    // Check format (basic validation)
    let parts: Vec<&str> = uuid1.split('-').collect();
    assert_eq!(parts.len(), 5);
    assert_eq!(parts[0].len(), 8);
    assert_eq!(parts[1].len(), 4);
    assert_eq!(parts[2].len(), 4);
    assert_eq!(parts[3].len(), 4);
    assert_eq!(parts[4].len(), 12);
}

#[test]
fn test_nonce_generation() {
    let rng = RandomInterface::new();

    let nonce = rng.generate_nonce(16).unwrap();
    assert_eq!(nonce.len(), 16);

    // Test invalid lengths
    assert!(rng.generate_nonce(0).is_err());
    assert!(rng.generate_nonce(65).is_err());
}

#[test]
fn test_salt_generation() {
    let rng = RandomInterface::new();

    let salt = rng.generate_salt(32).unwrap();
    assert_eq!(salt.len(), 32);

    // Test invalid lengths
    assert!(rng.generate_salt(8).is_err()); // Too short
    assert!(rng.generate_salt(100).is_err()); // Too long
}

#[test]
fn test_key_material_generation() {
    let rng = RandomInterface::new();

    let key = rng.generate_key_material(32).unwrap();
    assert_eq!(key.len(), 32);

    // Test invalid lengths
    assert!(rng.generate_key_material(8).is_err()); // Too short
    assert!(rng.generate_key_material(300).is_err()); // Too long
}

/// Shannon entropy, in bits per byte, of a sample with the given byte counts.
fn entropy_of(frequency: &[u32], sample_size: usize) -> f64 {
    let sample_size_f = sample_size as f64;
    frequency
        .iter()
        .filter(|&&freq| freq > 0)
        .map(|&freq| {
            let p = freq as f64 / sample_size_f;
            -p * p.log2()
        })
        .sum::<f64>()
}

#[test]
fn test_randomness_quality() {
    let rng = RandomInterface::new();

    let sample = rng.generate_quality_sample(10000).unwrap();
    let frequency = byte_frequencies(&sample);
    let entropy = entropy_of(&frequency, 10000);

    // Good random data should have entropy close to 8.0 (max for bytes)
    assert!(entropy > 7.5, "Entropy too low: {}", entropy);
    assert!(entropy <= 8.0, "Entropy too high: {}", entropy);
}

#[test]
fn test_wasi_compatibility() {
    let mut buffer = [0u8; 16];
    random_get(&mut buffer).unwrap();

    // Buffer should be filled with non-zero values (very likely)
    assert!(buffer.iter().any(|&x| x != 0));

    let val1 = random_u32().unwrap();
    let val2 = random_u32().unwrap();
    assert_ne!(val1, val2);

    let val3 = random_u64().unwrap();
    let val4 = random_u64().unwrap();
    assert_ne!(val3, val4);
}

#[test]
fn test_large_request_rejection() {
    let rng = RandomInterface::new();

    // Should reject very large requests
    assert!(rng.generate_random_bytes(2 * 1024 * 1024).is_err());
}

#[test]
fn random_bytes_limit_is_one_mebibyte() {
    let rng = RandomInterface::new();
    assert_eq!(rng.generate_random_bytes(1024 * 1024).unwrap().len(), 1024 * 1024);
    assert_eq!(rng.generate_random_bytes(0).unwrap().len(), 0);
    match rng.generate_random_bytes(1024 * 1024 + 1) {
        Err(HalError::InvalidParameter(m)) => {
            assert_eq!(m, "Requested random data too large (max 1MB)")
        }
        other => panic!("unexpected {:?}", other),
    }
}

#[test]
fn length_bounds_of_nonce_salt_and_key() {
    let rng = RandomInterface::new();
    assert_eq!(rng.generate_nonce(1).unwrap().len(), 1);
    assert_eq!(rng.generate_nonce(64).unwrap().len(), 64);
    assert_eq!(rng.generate_salt(16).unwrap().len(), 16);
    assert_eq!(rng.generate_salt(64).unwrap().len(), 64);
    assert!(rng.generate_salt(15).is_err());
    assert!(rng.generate_salt(65).is_err());
    assert_eq!(rng.generate_key_material(16).unwrap().len(), 16);
    assert_eq!(rng.generate_key_material(256).unwrap().len(), 256);
    assert!(rng.generate_key_material(15).is_err());
    assert!(rng.generate_key_material(257).is_err());
    match rng.generate_nonce(0) {
        Err(HalError::InvalidParameter(m)) => {
            assert_eq!(m, "Nonce length must be between 1 and 64 bytes")
        }
        other => panic!("unexpected {:?}", other),
    }
}

#[test]
fn quality_sample_size_bounds() {
    let rng = RandomInterface::new();
    assert_eq!(rng.generate_quality_sample(1000).unwrap().len(), 1000);
    assert_eq!(rng.generate_quality_sample(100_000).unwrap().len(), 100_000);
    assert!(rng.generate_quality_sample(999).is_err());
    assert!(rng.generate_quality_sample(100_001).is_err());
}

#[test]
fn range_edges_and_empty_range() {
    let rng = RandomInterface::new();
    assert_eq!(rng.generate_random_range(7, 8).unwrap(), 7);
    match rng.generate_random_range(5, 5) {
        Err(HalError::InvalidParameter(m)) => {
            assert_eq!(m, "Min value must be less than max value")
        }
        other => panic!("unexpected {:?}", other),
    }
    assert_eq!(value_in_range(10, 20, 0), 10);
    assert_eq!(value_in_range(10, 20, 9), 19);
    assert_eq!(value_in_range(10, 20, 10), 10);
    assert_eq!(value_in_range(10, 20, 1234), 14);
    assert_eq!(value_in_range(0, u64::MAX, u64::MAX), 0);
}

#[test]
fn little_endian_reads() {
    assert_eq!(u32_from_le_bytes(&[0x78, 0x56, 0x34, 0x12]), 0x1234_5678);
    assert_eq!(u32_from_le_bytes(&[0xff, 0xff, 0xff, 0xff]), u32::MAX);
    assert_eq!(
        u64_from_le_bytes(&[0x08, 0x07, 0x06, 0x05, 0x04, 0x03, 0x02, 0x01]),
        0x0102_0304_0506_0708
    );
    assert_eq!(u64_from_le_bytes(&[0xff; 8]), u64::MAX);
    assert_eq!(
        u32_from_le_bytes(&[1, 2, 3, 4]),
        u32::from_le_bytes([1, 2, 3, 4])
    );
}

#[test]
fn uuid_text_from_known_bytes() {
    let bytes: [u8; 16] = [
        0x00, 0x11, 0x22, 0x33, 0x44, 0x55, 0x66, 0x77, 0x88, 0x99, 0xaa, 0xbb, 0xcc, 0xdd,
        0xee, 0xff,
    ];
    assert_eq!(format_uuid_v4(&bytes), "00112233-4455-4677-8899-aabbccddeeff");
    let ones = [0xffu8; 16];
    assert_eq!(format_uuid_v4(&ones), "ffffffff-ffff-4fff-bfff-ffffffffffff");
    let zeros = [0u8; 16];
    assert_eq!(format_uuid_v4(&zeros), "00000000-0000-4000-8000-000000000000");
}

#[test]
fn generated_uuid_has_version_and_variant() {
    let rng = RandomInterface::new();
    let u = rng.generate_uuid_v4().unwrap();
    let chars: Vec<char> = u.chars().collect();
    assert_eq!(chars[14], '4');
    assert!(matches!(chars[19], '8' | '9' | 'a' | 'b'));
    assert!(u.chars().all(|c| c == '-' || c.is_ascii_hexdigit() && !c.is_ascii_uppercase()));
}

#[test]
fn byte_frequencies_count_each_value() {
    let f = byte_frequencies(&[1, 2, 2, 255, 1, 1]);
    assert_eq!(f.len(), 256);
    assert_eq!(f[0], 0);
    assert_eq!(f[1], 3);
    assert_eq!(f[2], 2);
    assert_eq!(f[255], 1);
    assert_eq!(f.iter().map(|&c| c as usize).sum::<usize>(), 6);
    let empty = byte_frequencies(&[]);
    assert!(empty.iter().all(|&c| c == 0));
}

#[test]
fn cpuinfo_flags_decide_hardware_rng() {
    let with_rdrand = "processor\t: 0\nflags\t\t: fpu vme rdrand sse\n";
    let with_rdseed = "flags : rdseed\n";
    let without = "flags\t\t: fpu vme sse2\n";
    assert!(cpuinfo_has_hardware_rng(with_rdrand));
    assert!(cpuinfo_has_hardware_rng(with_rdseed));
    assert!(!cpuinfo_has_hardware_rng(without));
    assert!(!cpuinfo_has_hardware_rng(""));
    assert!(!cpuinfo_has_hardware_rng("rdran"));
    assert!(hardware_rng_available(Some(with_rdrand)));
    assert!(!hardware_rng_available(Some(without)));
    assert!(!hardware_rng_available(None));
}

#[test]
fn hardware_random_bytes_needs_hardware_rng() {
    match hardware_random_bytes(false, 16) {
        Err(HalError::NotSupported(m)) => {
            assert_eq!(m, "Hardware RNG not available on this platform")
        }
        other => panic!("unexpected {:?}", other),
    }
    assert_eq!(hardware_random_bytes(true, 16).unwrap().len(), 16);
    assert!(matches!(
        hardware_random_bytes(true, 2 * 1024 * 1024),
        Err(HalError::InvalidParameter(_))
    ));
}

#[test]
fn random_get_keeps_buffer_length() {
    let mut empty: [u8; 0] = [];
    assert!(random_get(&mut empty).is_ok());
    let mut big = vec![0u8; 4096];
    random_get(&mut big).unwrap();
    assert_eq!(big.len(), 4096);
    assert!(big.iter().any(|&x| x != 0));
}
