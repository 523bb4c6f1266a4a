use gemini::x509::{Certificate, CertificateError, check_certificate_for_domain, dns_name_matches};

fn cert(not_before: i64, not_after: i64, san: &[&[u8]], cn: &[&[u8]]) -> Certificate {
    Certificate {
        der: vec![0x30, 0x82],
        not_before,
        not_after,
        san_dns_names: san.iter().map(|s| s.to_vec()).collect(),
        common_names: cn.iter().map(|s| s.to_vec()).collect(),
    }
}

#[test]
fn wildcard_matches_single_label() {
    assert!(dns_name_matches(b"foo.example.com", b"*.example.com"));
}

#[test]
fn wildcard_does_not_match_parent() {
    assert!(!dns_name_matches(b"example.com", b"*.example.com"));
}

#[test]
fn wildcard_does_not_match_across_labels() {
    assert!(!dns_name_matches(b"a.foo.example.com", b"*.example.com"));
}

#[test]
fn exact_match_is_case_insensitive() {
    assert!(dns_name_matches(b"EXAMPLE.com", b"example.com"));
    assert!(dns_name_matches(b"example.com", b"Example.COM"));
}

#[test]
fn wildcard_match_is_case_insensitive() {
    assert!(dns_name_matches(b"Foo.Example.COM", b"*.example.com"));
}

#[test]
fn trailing_dots_are_ignored() {
    assert!(dns_name_matches(b"example.com.", b"example.com"));
    assert!(dns_name_matches(b"example.com", b"example.com."));
}

#[test]
fn unrelated_names_do_not_match() {
    assert!(!dns_name_matches(b"example.org", b"example.com"));
    assert!(!dns_name_matches(b"example.com", b"www.example.com"));
    assert!(!dns_name_matches(b"wwwexample.com", b"www.example.com"));
}

#[test]
fn bare_wildcard_matches_one_label_only() {
    assert!(dns_name_matches(b"localhost", b"*"));
    assert!(!dns_name_matches(b"a.b", b"*"));
}

#[test]
fn expired_certificate_is_invalid_despite_matching_name() {
    let c = cert(0, 100, &[b"example.com"], &[]);
    assert_eq!(
        check_certificate_for_domain(&c, b"example.com", 101),
        Err(CertificateError::CertExpired)
    );
}

#[test]
fn not_yet_valid_certificate_is_invalid_despite_matching_name() {
    let c = cert(100, 200, &[b"example.com"], &[]);
    assert_eq!(
        check_certificate_for_domain(&c, b"example.com", 99),
        Err(CertificateError::CertNotValidYet)
    );
}

#[test]
fn valid_window_and_san_match() {
    let c = cert(0, 100, &[b"other.test", b"*.example.com"], &[]);
    assert_eq!(check_certificate_for_domain(&c, b"foo.example.com", 50), Ok(()));
}

#[test]
fn common_name_fallback_when_san_absent() {
    let c = cert(0, 100, &[], &[b"example.com"]);
    assert_eq!(check_certificate_for_domain(&c, b"example.com", 50), Ok(()));
}

#[test]
fn no_identity_matches() {
    let c = cert(0, 100, &[b"a.test"], &[b"b.test"]);
    assert_eq!(
        check_certificate_for_domain(&c, b"example.com", 50),
        Err(CertificateError::CertNotValidForName)
    );
}

#[test]
fn window_boundaries_are_inclusive() {
    let c = cert(10, 20, &[b"example.com"], &[]);
    assert_eq!(check_certificate_for_domain(&c, b"example.com", 10), Ok(()));
    assert_eq!(check_certificate_for_domain(&c, b"example.com", 20), Ok(()));
}
