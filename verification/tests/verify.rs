use gemini::verify::{
    CertificateVerifier, MemoryTrustCache, PresentedCertificate, Response, StaticDelegate,
    TrustDecision, VerifyError,
};
use gemini::verify::CertificateTrustCache;
use gemini::x509::Certificate;

fn cert(der: &[u8]) -> Certificate {
    Certificate {
        der: der.to_vec(),
        not_before: 0,
        not_after: 1_000_000,
        san_dns_names: vec![b"example.com".to_vec()],
        common_names: vec![],
    }
}

const NOW: i64 = 500;

#[test]
fn first_use_records_exactly_one_grant() {
    let delegate = StaticDelegate { decision: TrustDecision::TrustTemporary };
    let mut verifier = CertificateVerifier::new(delegate, MemoryTrustCache::new());
    let presented = PresentedCertificate::Parsed(cert(b"der-1"));
    assert_eq!(verifier.verify_certificate(&presented, b"example.com", NOW), Ok(()));
    assert_eq!(verifier.trust_cache.len(), 1);
    // A temporary decision records a one-time grant, not a persistent one.
    assert!(!verifier.trust_cache.entries[0].persistent);
}

#[test]
fn cached_trust_skips_the_delegate() {
    let delegate = StaticDelegate { decision: TrustDecision::TrustTemporary };
    let mut verifier = CertificateVerifier::new(delegate, MemoryTrustCache::new());
    let presented = PresentedCertificate::Parsed(cert(b"der-1"));
    assert_eq!(verifier.verify_certificate(&presented, b"example.com", NOW), Ok(()));
    assert_eq!(verifier.trust_cache.len(), 1);
    // Same certificate and hostname again, but with a delegate that would
    // abort: verification still succeeds, so the delegate was not consulted,
    // and nothing more is recorded.
    let mut verifier = CertificateVerifier::new(
        StaticDelegate { decision: TrustDecision::Abort },
        verifier.trust_cache,
    );
    assert_eq!(verifier.verify_certificate(&presented, b"example.com", NOW), Ok(()));
    assert_eq!(verifier.trust_cache.len(), 1);
}

#[test]
fn aborting_delegate_rejects_and_mutates_nothing() {
    let delegate = StaticDelegate { decision: TrustDecision::Abort };
    let mut verifier = CertificateVerifier::new(delegate, MemoryTrustCache::new());
    let presented = PresentedCertificate::Parsed(cert(b"der-1"));
    assert_eq!(
        verifier.verify_certificate(&presented, b"example.com", NOW),
        Err(VerifyError::CertificateRejected)
    );
    assert_eq!(verifier.trust_cache.len(), 0);
}

#[test]
fn missing_certificate_is_rejected() {
    let delegate = StaticDelegate { decision: TrustDecision::TrustAlways };
    let mut verifier = CertificateVerifier::new(delegate, MemoryTrustCache::new());
    assert_eq!(
        verifier.verify_certificate(&PresentedCertificate::Missing, b"example.com", NOW),
        Err(VerifyError::NoCertificatesPresented)
    );
}

#[test]
fn malformed_certificate_is_rejected() {
    let delegate = StaticDelegate { decision: TrustDecision::TrustAlways };
    let mut verifier = CertificateVerifier::new(delegate, MemoryTrustCache::new());
    assert_eq!(
        verifier.verify_certificate(&PresentedCertificate::Malformed, b"example.com", NOW),
        Err(VerifyError::MalformedCertificate)
    );
}

#[test]
fn invalid_certificate_may_still_be_trusted_by_policy() {
    // The validity window excludes "now": the certificate is classified
    // invalid, but under trust-on-first-use the delegate may still grant
    // trust explicitly.
    let delegate = StaticDelegate { decision: TrustDecision::TrustAlways };
    let mut verifier = CertificateVerifier::new(delegate, MemoryTrustCache::new());
    let mut expired = cert(b"der-1");
    expired.not_after = NOW - 1;
    let presented = PresentedCertificate::Parsed(expired);
    assert_eq!(verifier.verify_certificate(&presented, b"example.com", NOW), Ok(()));
    assert_eq!(verifier.trust_cache.len(), 1);
    // An always decision records a persistent grant.
    assert!(verifier.trust_cache.entries[0].persistent);
}

#[test]
fn changed_certificate_is_a_mismatch() {
    let delegate = StaticDelegate { decision: TrustDecision::TrustAlways };
    let mut verifier = CertificateVerifier::new(delegate, MemoryTrustCache::new());
    let first = PresentedCertificate::Parsed(cert(b"der-1"));
    assert_eq!(verifier.verify_certificate(&first, b"example.com", NOW), Ok(()));
    // A different certificate for the same hostname: the cache reports a
    // mismatch, and an aborting delegate rejects it.
    let mut verifier = CertificateVerifier::new(
        StaticDelegate { decision: TrustDecision::Abort },
        verifier.trust_cache,
    );
    let second = PresentedCertificate::Parsed(cert(b"der-2"));
    assert_eq!(
        verifier.verify_certificate(&second, b"example.com", NOW),
        Err(VerifyError::CertificateRejected)
    );
}

#[test]
fn memory_cache_lookup_reports_states() {
    let cache = MemoryTrustCache::new();
    let c1 = cert(b"der-1");
    assert_eq!(
        cache.get_certificate_trust(&c1, b"example.com"),
        Response::UnknownCertificate
    );
    let mut cache = cache;
    cache.trust_certificate_once(&c1, b"example.com");
    assert_eq!(
        cache.get_certificate_trust(&c1, b"example.com"),
        Response::TrustedCertificate
    );
    let c2 = cert(b"der-2");
    assert_eq!(
        cache.get_certificate_trust(&c2, b"example.com"),
        Response::FingerprintMismatch
    );
    assert_eq!(
        cache.get_certificate_trust(&c1, b"other.test"),
        Response::UnknownCertificate
    );
}

#[test]
fn grants_record_their_persistence() {
    let c1 = cert(b"der-1");
    let mut cache = MemoryTrustCache::new();
    cache.trust_certificate_once(&c1, b"a.test");
    cache.trust_certificate_always(&c1, b"b.test");
    assert_eq!(cache.len(), 2);
    assert!(!cache.entries[0].persistent);
    assert!(cache.entries[1].persistent);
}

#[test]
fn trust_is_per_hostname() {
    let delegate = StaticDelegate { decision: TrustDecision::TrustAlways };
    let mut verifier = CertificateVerifier::new(delegate, MemoryTrustCache::new());
    let mut wide = cert(b"der-1");
    wide.san_dns_names = vec![b"*.example.com".to_vec()];
    let presented = PresentedCertificate::Parsed(wide);
    assert_eq!(verifier.verify_certificate(&presented, b"a.example.com", NOW), Ok(()));
    // The grant was for a.example.com; b.example.com is still unknown.
    let mut verifier = CertificateVerifier::new(
        StaticDelegate { decision: TrustDecision::Abort },
        verifier.trust_cache,
    );
    assert_eq!(
        verifier.verify_certificate(&presented, b"b.example.com", NOW),
        Err(VerifyError::CertificateRejected)
    );
}
