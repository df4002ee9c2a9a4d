use base64::Engine;
use elastic_tee_hal::error::HalError;
use elastic_tee_hal::sev_vtpm::{
    assemble_evidence, base64_decode_pem, check_report_data, evidence_source_usable,
};

const PEM: &str = "-----BEGIN CERTIFICATE-----\r\nAAEC\r\nAwQF\r\n-----END CERTIFICATE-----\r\n";

#[test]
fn report_data_of_at_most_64_bytes() {
    assert!(check_report_data(&[0u8; 64]).is_ok());
    assert!(check_report_data(b"wasmhal-sev-check").is_ok());
    assert!(check_report_data(&[]).is_ok());
    match check_report_data(&[0u8; 65]) {
        Err(HalError::InvalidParameter(m)) => assert_eq!(m, "report_data must be at most 64 bytes"),
        other => panic!("unexpected {:?}", other),
    }
}

#[test]
fn pem_body_is_decoded() {
    assert_eq!(base64_decode_pem(PEM).unwrap(), vec![0, 1, 2, 3, 4, 5]);
    assert_eq!(base64_decode_pem("QQ==").unwrap(), b"A".to_vec());
    assert_eq!(base64_decode_pem("  \n-----X\nQUI=\n \t").unwrap(), b"AB".to_vec());
    assert_eq!(base64_decode_pem("").unwrap(), Vec::<u8>::new());
    assert!(base64_decode_pem("-----BEGIN-----\n@@@@\n-----END-----").is_err());
    assert!(base64_decode_pem("QQ=").is_err());
    assert!(base64_decode_pem("QR==").is_err());
}

#[test]
fn evidence_fields_are_encoded() {
    let e = assemble_evidence(
        vec![9, 8, 7],
        &[0xde, 0xad],
        &[0x00, 0x0f, 0xf0],
        &vec![vec![0x01; 2], vec![0xab]],
        Some(PEM),
    );
    assert_eq!(e.version, 1);
    assert_eq!(e.tpm_quote.signature, "dead");
    assert_eq!(e.tpm_quote.message, "000ff0");
    assert_eq!(e.tpm_quote.pcrs, vec!["0101".to_string(), "ab".to_string()]);
    assert_eq!(e.hcl_report, vec![9, 8, 7]);
    assert_eq!(e.vcek, "AAECAwQF");
    assert_eq!(
        e.vcek,
        base64::engine::general_purpose::STANDARD.encode([0u8, 1, 2, 3, 4, 5])
    );
    assert_eq!(e.tpm_quote.signature, hex::encode([0xde, 0xad]));
}

#[test]
fn evidence_without_a_valid_vcek_has_an_empty_one() {
    let e = assemble_evidence(vec![], &[], &[], &vec![], None);
    assert_eq!(e.vcek, "");
    assert_eq!(e.tpm_quote.signature, "");
    assert!(e.tpm_quote.pcrs.is_empty());
    let bad = assemble_evidence(vec![], &[], &[], &vec![], Some("not base64!"));
    assert_eq!(bad.vcek, "");
}

#[test]
fn evidence_source_needs_vtpm_and_snp() {
    assert!(evidence_source_usable(true, Some(true)));
    assert!(!evidence_source_usable(true, Some(false)));
    assert!(!evidence_source_usable(true, None));
    assert!(!evidence_source_usable(false, Some(true)));
}

#[test]
fn pem_round_trip_bare_and_armoured() {
    assert_eq!(
        base64_decode_pem("-----BEGIN CERTIFICATE-----\nAAEC\n-----END CERTIFICATE-----").unwrap(),
        vec![0, 1, 2]
    );
    let samples: Vec<Vec<u8>> = vec![
        vec![],
        vec![0xff],
        vec![1, 2],
        vec![0, 1, 2],
        (0u8..=255).collect(),
        vec![0x3e, 0x3f, 0xfb, 0xff],
    ];
    for d in samples {
        let e = base64::engine::general_purpose::STANDARD.encode(&d);
        assert_eq!(base64_decode_pem(&e).unwrap(), d);
        let pem = format!("-----BEGIN CERTIFICATE-----\n{}\n-----END CERTIFICATE-----\n", e);
        assert_eq!(base64_decode_pem(&pem).unwrap(), d);
        let pem = format!("-----BEGIN CERTIFICATE-----\n{}\n-----END CERTIFICATE-----", e);
        assert_eq!(base64_decode_pem(&pem).unwrap(), d);
    }
}
