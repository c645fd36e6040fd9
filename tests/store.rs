use jks::{JksError, Options, Store};

/// A self-signed root certificate ("Amazon Root CA 3"), encoded in DER.
fn root_der() -> Vec<u8> {
    vec![
        0x30, 0x82, 0x01, 0xb6, 0x30, 0x82, 0x01, 0x5b, 0xa0, 0x03, 0x02, 0x01,
        0x02, 0x02, 0x13, 0x06, 0x6c, 0x9f, 0xd5, 0x74, 0x97, 0x36, 0x66, 0x3f,
        0x3b, 0x0b, 0x9a, 0xd9, 0xe8, 0x9e, 0x76, 0x03, 0xf2, 0x4a, 0x30, 0x0a,
        0x06, 0x08, 0x2a, 0x86, 0x48, 0xce, 0x3d, 0x04, 0x03, 0x02, 0x30, 0x39,
        0x31, 0x0b, 0x30, 0x09, 0x06, 0x03, 0x55, 0x04, 0x06, 0x13, 0x02, 0x55,
        0x53, 0x31, 0x0f, 0x30, 0x0d, 0x06, 0x03, 0x55, 0x04, 0x0a, 0x13, 0x06,
        0x41, 0x6d, 0x61, 0x7a, 0x6f, 0x6e, 0x31, 0x19, 0x30, 0x17, 0x06, 0x03,
        0x55, 0x04, 0x03, 0x13, 0x10, 0x41, 0x6d, 0x61, 0x7a, 0x6f, 0x6e, 0x20,
        0x52, 0x6f, 0x6f, 0x74, 0x20, 0x43, 0x41, 0x20, 0x33, 0x30, 0x1e, 0x17,
        0x0d, 0x31, 0x35, 0x30, 0x35, 0x32, 0x36, 0x30, 0x30, 0x30, 0x30, 0x30,
        0x30, 0x5a, 0x17, 0x0d, 0x34, 0x30, 0x30, 0x35, 0x32, 0x36, 0x30, 0x30,
        0x30, 0x30, 0x30, 0x30, 0x5a, 0x30, 0x39, 0x31, 0x0b, 0x30, 0x09, 0x06,
        0x03, 0x55, 0x04, 0x06, 0x13, 0x02, 0x55, 0x53, 0x31, 0x0f, 0x30, 0x0d,
        0x06, 0x03, 0x55, 0x04, 0x0a, 0x13, 0x06, 0x41, 0x6d, 0x61, 0x7a, 0x6f,
        0x6e, 0x31, 0x19, 0x30, 0x17, 0x06, 0x03, 0x55, 0x04, 0x03, 0x13, 0x10,
        0x41, 0x6d, 0x61, 0x7a, 0x6f, 0x6e, 0x20, 0x52, 0x6f, 0x6f, 0x74, 0x20,
        0x43, 0x41, 0x20, 0x33, 0x30, 0x59, 0x30, 0x13, 0x06, 0x07, 0x2a, 0x86,
        0x48, 0xce, 0x3d, 0x02, 0x01, 0x06, 0x08, 0x2a, 0x86, 0x48, 0xce, 0x3d,
        0x03, 0x01, 0x07, 0x03, 0x42, 0x00, 0x04, 0x29, 0x97, 0xa7, 0xc6, 0x41,
        0x7f, 0xc0, 0x0d, 0x9b, 0xe8, 0x01, 0x1b, 0x56, 0xc6, 0xf2, 0x52, 0xa5,
        0xba, 0x2d, 0xb2, 0x12, 0xe8, 0xd2, 0x2e, 0xd7, 0xfa, 0xc9, 0xc5, 0xd8,
        0xaa, 0x6d, 0x1f, 0x73, 0x81, 0x3b, 0x3b, 0x98, 0x6b, 0x39, 0x7c, 0x33,
        0xa5, 0xc5, 0x4e, 0x86, 0x8e, 0x80, 0x17, 0x68, 0x62, 0x45, 0x57, 0x7d,
        0x44, 0x58, 0x1d, 0xb3, 0x37, 0xe5, 0x67, 0x08, 0xeb, 0x66, 0xde, 0xa3,
        0x42, 0x30, 0x40, 0x30, 0x0f, 0x06, 0x03, 0x55, 0x1d, 0x13, 0x01, 0x01,
        0xff, 0x04, 0x05, 0x30, 0x03, 0x01, 0x01, 0xff, 0x30, 0x0e, 0x06, 0x03,
        0x55, 0x1d, 0x0f, 0x01, 0x01, 0xff, 0x04, 0x04, 0x03, 0x02, 0x01, 0x86,
        0x30, 0x1d, 0x06, 0x03, 0x55, 0x1d, 0x0e, 0x04, 0x16, 0x04, 0x14, 0xab,
        0xb6, 0xdb, 0xd7, 0x06, 0x9e, 0x37, 0xac, 0x30, 0x86, 0x07, 0x91, 0x70,
        0xc7, 0x9c, 0xc4, 0x19, 0xb1, 0x78, 0xc0, 0x30, 0x0a, 0x06, 0x08, 0x2a,
        0x86, 0x48, 0xce, 0x3d, 0x04, 0x03, 0x02, 0x03, 0x49, 0x00, 0x30, 0x46,
        0x02, 0x21, 0x00, 0xe0, 0x85, 0x92, 0xa3, 0x17, 0xb7, 0x8d, 0xf9, 0x2b,
        0x06, 0xa5, 0x93, 0xac, 0x1a, 0x98, 0x68, 0x61, 0x72, 0xfa, 0xe1, 0xa1,
        0xd0, 0xfb, 0x1c, 0x78, 0x60, 0xa6, 0x43, 0x99, 0xc5, 0xb8, 0xc4, 0x02,
        0x21, 0x00, 0x9c, 0x02, 0xef, 0xf1, 0x94, 0x9c, 0xb3, 0x96, 0xf9, 0xeb,
        0xc6, 0x2a, 0xf8, 0xb6, 0x2c, 0xfe, 0x3a, 0x90, 0x14, 0x16, 0xd7, 0x8c,
        0x63, 0x24, 0x48, 0x1c, 0xdf, 0x30, 0x7d, 0xd5, 0x68, 0x3b,
    ]
}

fn header(count: u32) -> Vec<u8> {
    let mut out = vec![0xfe, 0xed, 0xfe, 0xed, 0x00, 0x00, 0x00, 0x02];
    out.extend_from_slice(&count.to_be_bytes());
    out
}

fn put_str(out: &mut Vec<u8>, s: &str) {
    out.extend_from_slice(&(s.len() as u16).to_be_bytes());
    out.extend_from_slice(s.as_bytes());
}

fn put_cert(out: &mut Vec<u8>, cert_type: &str, der: &[u8]) {
    put_str(out, cert_type);
    out.extend_from_slice(&(der.len() as u32).to_be_bytes());
    out.extend_from_slice(der);
}

fn cert_entry(out: &mut Vec<u8>, alias: &str, timestamp: u64, cert_type: &str, der: &[u8]) {
    out.extend_from_slice(&2u32.to_be_bytes());
    put_str(out, alias);
    out.extend_from_slice(&timestamp.to_be_bytes());
    put_cert(out, cert_type, der);
}

fn key_pair_entry(out: &mut Vec<u8>, alias: &str, timestamp: u64, key: &[u8], chain: &[Vec<u8>]) {
    out.extend_from_slice(&1u32.to_be_bytes());
    put_str(out, alias);
    out.extend_from_slice(&timestamp.to_be_bytes());
    out.extend_from_slice(&(key.len() as u32).to_be_bytes());
    out.extend_from_slice(key);
    out.extend_from_slice(&(chain.len() as u32).to_be_bytes());
    for der in chain {
        put_cert(out, "X.509", der);
    }
}

fn two_entries() -> Vec<u8> {
    let mut data = header(2);
    cert_entry(&mut data, "a", 1_700_000_000_000, "X.509", &root_der());
    key_pair_entry(&mut data, "key", 42, &[1, 2, 3, 4, 5], &[root_der(), root_der()]);
    data
}

#[test]
fn short_buffers_fail_without_panic() {
    let full = header(0);
    for n in 0..8 {
        let r = Store::parse(&full[..n], None);
        assert!(matches!(r, Err(JksError::ShortRead { .. }) | Err(JksError::InvalidFormat { .. })));
    }
    let wrong = [0x00u8, 0x01, 0x02, 0x03, 0x04];
    assert!(matches!(Store::parse(&wrong, None), Err(JksError::InvalidFormat { .. })));
}

#[test]
fn no_entries_gives_empty_store() {
    let store = Store::parse(&header(0), None).unwrap();
    assert!(store.certs.is_empty());
    assert!(store.key_pairs.is_empty());
    let mut trailing = header(0);
    trailing.extend_from_slice(&[7, 7, 7]);
    let store = Store::parse(&trailing, Some(Options::default())).unwrap();
    assert!(store.certs.is_empty() && store.key_pairs.is_empty());
}

#[test]
fn single_certificate_entry() {
    let mut data = header(1);
    cert_entry(&mut data, "a", 1_700_000_000_000, "X.509", &root_der());
    let store = Store::parse(&data, None).unwrap();
    assert_eq!(store.certs.len(), 1);
    assert!(store.key_pairs.is_empty());
    let entry = &store.certs[0];
    assert_eq!(entry.alias, "a");
    assert_eq!(entry.timestamp, 1_700_000_000_000);
    assert_eq!(entry.certificate.raw, root_der());
    assert_eq!(entry.certificate.cert.subject_common_name(), Some("Amazon Root CA 3".to_string()));
}

#[test]
fn key_pair_entry_keeps_key_and_chain() {
    let store = Store::parse(&two_entries(), None).unwrap();
    assert_eq!(store.certs.len(), 1);
    assert_eq!(store.key_pairs.len(), 1);
    let kp = &store.key_pairs[0];
    assert_eq!(kp.alias, "key");
    assert_eq!(kp.timestamp, 42);
    assert_eq!(kp.encrypted_key, vec![1, 2, 3, 4, 5]);
    assert_eq!(kp.cert_chain.len(), 2);
    assert_eq!(kp.cert_chain[1].raw, root_der());
}

#[test]
fn entries_keep_input_order() {
    let mut data = header(3);
    cert_entry(&mut data, "first", 1, "X.509", &root_der());
    key_pair_entry(&mut data, "middle", 2, &[], &[]);
    cert_entry(&mut data, "last", 3, "X.509", &root_der());
    let store = Store::parse(&data, None).unwrap();
    let aliases: Vec<&str> = store.certs.iter().map(|c| c.alias.as_str()).collect();
    assert_eq!(aliases, vec!["first", "last"]);
    assert_eq!(store.key_pairs[0].alias, "middle");
    assert!(store.key_pairs[0].cert_chain.is_empty());
}

#[test]
fn every_truncation_is_a_short_read() {
    let data = two_entries();
    for n in 0..data.len() {
        let r = Store::parse(&data[..n], None);
        assert!(matches!(r, Err(JksError::ShortRead { .. })), "prefix of {} bytes", n);
    }
}

#[test]
fn truncated_payload_reports_needed_bytes() {
    let mut data = header(1);
    key_pair_entry(&mut data, "k", 0, &[1, 2, 3, 4, 5, 6], &[]);
    let cut = data.len() - 4 - 1;
    assert!(matches!(Store::parse(&data[..cut], None), Err(JksError::ShortRead { needed: 6 })));
}

#[test]
fn tag_three_is_invalid_entry_type() {
    let mut data = header(1);
    data.extend_from_slice(&3u32.to_be_bytes());
    assert!(matches!(Store::parse(&data, None), Err(JksError::InvalidEntryType { tag: 3 })));
    data.extend_from_slice(&[0xff; 40]);
    assert!(matches!(Store::parse(&data, None), Err(JksError::InvalidEntryType { tag: 3 })));
}

#[test]
fn pgp_certificate_is_unsupported() {
    let mut data = header(1);
    // bytes that are no certificate: the type is rejected before they are decoded
    cert_entry(&mut data, "a", 0, "PGP", &[0xde, 0xad]);
    match Store::parse(&data, None) {
        Err(JksError::UnsupportedCertificateType { cert_type }) => assert_eq!(cert_type, "PGP"),
        other => panic!("unexpected {:?}", other.map(|s| s.certs.len())),
    }
}

#[test]
fn bad_der_is_certificate_parse_error() {
    let mut data = header(1);
    cert_entry(&mut data, "a", 0, "X.509", &[0x30, 0x03, 0x02, 0x01, 0x00]);
    assert!(matches!(Store::parse(&data, None), Err(JksError::CertificateParseError(_))));
}

#[test]
fn unsupported_version() {
    let mut data = header(0);
    data[7] = 1;
    assert!(matches!(Store::parse(&data, None), Err(JksError::UnsupportedVersion { version: 1 })));
}

#[test]
fn wrong_magic_reports_bytes() {
    let mut data = header(0);
    data[0] = 0xca;
    match Store::parse(&data, None) {
        Err(JksError::InvalidFormat { expected, actual }) => {
            assert_eq!(expected, [0xfe, 0xed, 0xfe, 0xed]);
            assert_eq!(actual, [0xca, 0xed, 0xfe, 0xed]);
        }
        _ => panic!("expected InvalidFormat"),
    }
}

#[test]
fn invalid_alias_encoding() {
    let mut data = header(1);
    data.extend_from_slice(&2u32.to_be_bytes());
    data.extend_from_slice(&[0x00, 0x01, 0xff]);
    assert!(matches!(Store::parse(&data, None), Err(JksError::InvalidEncoding)));
}

#[test]
fn parsing_twice_gives_equal_stores() {
    let data = two_entries();
    let a = Store::parse(&data, None).unwrap();
    let b = Store::parse(&data, None).unwrap();
    assert_eq!(a.certs.len(), b.certs.len());
    for (x, y) in a.certs.iter().zip(b.certs.iter()) {
        assert_eq!(x.alias, y.alias);
        assert_eq!(x.timestamp, y.timestamp);
        assert_eq!(x.certificate.raw, y.certificate.raw);
        assert_eq!(x.certificate.cert, y.certificate.cert);
    }
    assert_eq!(a.key_pairs.len(), b.key_pairs.len());
    for (x, y) in a.key_pairs.iter().zip(b.key_pairs.iter()) {
        assert_eq!(x.alias, y.alias);
        assert_eq!(x.timestamp, y.timestamp);
        assert_eq!(x.encrypted_key, y.encrypted_key);
        let rx: Vec<&Vec<u8>> = x.cert_chain.iter().map(|c| &c.raw).collect();
        let ry: Vec<&Vec<u8>> = y.cert_chain.iter().map(|c| &c.raw).collect();
        assert_eq!(rx, ry);
    }
}

#[test]
fn resolve_password_override_or_default() {
    let mut opts = Options::default();
    assert_eq!(opts.password, "changeit");
    assert!(!opts.skip_verify);
    assert_eq!(opts.resolve_password("bob"), "changeit");
    opts.key_passwords.push(("alice".to_string(), "a-pass".to_string()));
    assert_eq!(opts.resolve_password("bob"), "changeit");
    opts.key_passwords.push(("bob".to_string(), "b-pass".to_string()));
    opts.key_passwords.push(("bob".to_string(), "later".to_string()));
    assert_eq!(opts.resolve_password("bob"), "b-pass");
    assert_eq!(opts.resolve_password("alice"), "a-pass");
    assert_eq!(opts.resolve_password("carol"), "changeit");
}
