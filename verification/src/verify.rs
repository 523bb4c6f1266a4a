//! Trust-on-first-use certificate verification.
//!
//! The verifier replaces chain validation with a fixed wiring of two narrow
//! capabilities injected by the caller: a trust cache (a pure lookup/record
//! store) and a verification delegate (the only component permitted to apply
//! policy or ask a human). A certificate that fails the time or identity
//! check is not rejected outright: the failure becomes an issue put before
//! the delegate, preserving the model in which even an invalid certificate
//! may be trusted explicitly.

use vstd::prelude::*;

verus! {

use vstd::slice::{slice_index_get, slice_to_vec};
use crate::x509::{Certificate, CertificateError, check_certificate_for_domain, check_spec};

/// The trust state a cache reports for a certificate and hostname.
#[derive(Clone, Copy, Debug, PartialEq, Eq, Structural)]
pub enum Response {
    /// No trust decision is recorded for this certificate and hostname.
    UnknownCertificate,
    /// This very certificate was granted trust for this hostname.
    TrustedCertificate,
    /// A different certificate holds the recorded trust for this hostname.
    FingerprintMismatch,
}

/// Why a certificate is not immediately trusted: what is put before the
/// delegate.
#[derive(Clone, Copy, Debug, PartialEq, Eq, Structural)]
pub enum VerificationIssue {
    UnknownCertificate,
    InvalidCertificate(CertificateError),
    FingerprintMismatch,
}

/// The delegate's ruling on an issue.
#[derive(Clone, Copy, Debug, PartialEq, Eq, Structural)]
pub enum TrustDecision {
    Abort,
    TrustTemporary,
    TrustAlways,
}

/// How verification of a presented certificate can fail.
#[derive(Clone, Copy, Debug, PartialEq, Eq, Structural)]
pub enum VerifyError {
    /// The handshake presented no certificate at all.
    NoCertificatesPresented,
    /// The leading certificate's encoding did not parse.
    MalformedCertificate,
    /// The delegate aborted: the connection is rejected.
    CertificateRejected,
}

/// What a handshake presented for verification: nothing, a leading
/// certificate whose encoding did not parse, or the parsed leading
/// certificate.
pub enum PresentedCertificate {
    Missing,
    Malformed,
    Parsed(Certificate),
}

/// The only component permitted to apply policy or ask a human. Implementors
/// state their decision rule as `decision_view` and must answer accordingly.
pub trait VerificationDelegate {
    /// The decision this delegate takes for a certificate, hostname and
    /// issue.
    spec fn decision_view(
        &self,
        certificate: Certificate,
        dns_name: Seq<u8>,
        issue: VerificationIssue,
    ) -> TrustDecision;

    /// Decides whether to trust a certificate that is not immediately
    /// trusted, given the issue found with it.
    fn decide_certificate_trust(
        &self,
        certificate: &Certificate,
        dns_name: &[u8],
        issue: VerificationIssue,
    ) -> (r: TrustDecision)
        ensures
            r == self.decision_view(*certificate, dns_name@, issue),
    ;
}

/// A pure lookup/record store of trust decisions, logically keyed by
/// certificate identity and hostname. Implementors state their contents as
/// two views: the trust state per pair (`trust_view`) and the grants
/// recorded so far (`grants_view`). Recording trust appends exactly one
/// grant of the method's own kind, makes the pair report trusted, and
/// leaves every other hostname's state unchanged.
pub trait CertificateTrustCache {
    /// The trust state this cache holds for a certificate and hostname.
    spec fn trust_view(&self, certificate: Certificate, dns_name: Seq<u8>) -> Response;

    /// The grants recorded in this cache, in order: the trusted
    /// certificate's identity (its DER encoding), the hostname, and whether
    /// the grant is persistent.
    spec fn grants_view(&self) -> Seq<(Seq<u8>, Seq<u8>, bool)>;

    /// Looks up the recorded trust state.
    fn get_certificate_trust(&self, certificate: &Certificate, dns_name: &[u8]) -> (r: Response)
        ensures
            r == self.trust_view(*certificate, dns_name@),
    ;

    /// Records a one-time trust grant for this certificate and hostname.
    fn trust_certificate_once(&mut self, certificate: &Certificate, dns_name: &[u8])
        ensures
            final(self).trust_view(*certificate, dns_name@) == Response::TrustedCertificate,
            forall|c: Certificate, h: Seq<u8>|
                h != dns_name@ ==> final(self).trust_view(c, h) == old(self).trust_view(c, h),
            final(self).grants_view() == old(self).grants_view().push(
                (certificate.der@, dns_name@, false),
            ),
    ;

    /// Records a persistent trust grant for this certificate and hostname.
    fn trust_certificate_always(&mut self, certificate: &Certificate, dns_name: &[u8])
        ensures
            final(self).trust_view(*certificate, dns_name@) == Response::TrustedCertificate,
            forall|c: Certificate, h: Seq<u8>|
                h != dns_name@ ==> final(self).trust_view(c, h) == old(self).trust_view(c, h),
            final(self).grants_view() == old(self).grants_view().push(
                (certificate.der@, dns_name@, true),
            ),
    ;
}

/// Trust-on-first-use verification, wiring a delegate and a trust cache
/// together in a fixed order.
pub struct CertificateVerifier<D, C> {
    pub delegate: D,
    pub trust_cache: C,
}

/// The issue put before the delegate when a certificate is not immediately
/// trusted: a failed time or identity check takes precedence; otherwise the
/// cache's answer is the issue.
pub open spec fn issue_of(check: Result<(), CertificateError>, cached: Response) -> VerificationIssue {
    match check {
        Err(e) => VerificationIssue::InvalidCertificate(e),
        Ok(()) => match cached {
            Response::FingerprintMismatch => VerificationIssue::FingerprintMismatch,
            _ => VerificationIssue::UnknownCertificate,
        },
    }
}

/// The whole transition relation of [`CertificateVerifier::verify_certificate`]:
/// exactly one certificate must be presented and parse; a valid certificate
/// the cache already trusts is accepted with no further calls; any other
/// outcome is put before the delegate, whose ruling either rejects the
/// connection (mutating nothing) or grants trust, which is recorded in the
/// cache — as exactly one grant, of the decision's own kind — before
/// success is reported.
pub open spec fn verify_post<D: VerificationDelegate, C: CertificateTrustCache>(
    pre: CertificateVerifier<D, C>,
    presented: PresentedCertificate,
    dns_name: Seq<u8>,
    now: i64,
    post: CertificateVerifier<D, C>,
    r: Result<(), VerifyError>,
) -> bool {
    match presented {
        PresentedCertificate::Missing => {
            &&& post == pre
            &&& r == Err::<(), VerifyError>(VerifyError::NoCertificatesPresented)
        },
        PresentedCertificate::Malformed => {
            &&& post == pre
            &&& r == Err::<(), VerifyError>(VerifyError::MalformedCertificate)
        },
        PresentedCertificate::Parsed(cert) => {
            let check = check_spec(cert, dns_name, now);
            let cached = pre.trust_cache.trust_view(cert, dns_name);
            if check is Ok && cached is TrustedCertificate {
                &&& post == pre
                &&& r == Ok::<(), VerifyError>(())
            } else {
                match pre.delegate.decision_view(cert, dns_name, issue_of(check, cached)) {
                    TrustDecision::Abort => {
                        &&& post == pre
                        &&& r == Err::<(), VerifyError>(VerifyError::CertificateRejected)
                    },
                    TrustDecision::TrustTemporary => {
                        &&& r == Ok::<(), VerifyError>(())
                        &&& post.delegate == pre.delegate
                        &&& post.trust_cache.trust_view(cert, dns_name)
                            == Response::TrustedCertificate
                        &&& forall|c: Certificate, h: Seq<u8>|
                            h != dns_name ==> post.trust_cache.trust_view(c, h)
                                == pre.trust_cache.trust_view(c, h)
                        &&& post.trust_cache.grants_view() == pre.trust_cache.grants_view().push(
                            (cert.der@, dns_name, false),
                        )
                    },
                    TrustDecision::TrustAlways => {
                        &&& r == Ok::<(), VerifyError>(())
                        &&& post.delegate == pre.delegate
                        &&& post.trust_cache.trust_view(cert, dns_name)
                            == Response::TrustedCertificate
                        &&& forall|c: Certificate, h: Seq<u8>|
                            h != dns_name ==> post.trust_cache.trust_view(c, h)
                                == pre.trust_cache.trust_view(c, h)
                        &&& post.trust_cache.grants_view() == pre.trust_cache.grants_view().push(
                            (cert.der@, dns_name, true),
                        )
                    },
                }
            }
        },
    }
}

impl<D, C> CertificateVerifier<D, C> where D: VerificationDelegate, C: CertificateTrustCache {
    /// A verifier over the given delegate and trust cache.
    pub fn new(delegate: D, trust_cache: C) -> (r: Self)
        ensures
            r.delegate == delegate,
            r.trust_cache == trust_cache,
    {
        Self { delegate, trust_cache }
    }

    /// Verifies the certificate a handshake presented for `dns_name`, at
    /// time `now` (seconds since the epoch), in the fixed trust-on-first-use
    /// order stated by [`verify_post`].
    pub fn verify_certificate(
        &mut self,
        presented: &PresentedCertificate,
        dns_name: &[u8],
        now: i64,
    ) -> (r: Result<(), VerifyError>)
        ensures
            verify_post(*old(self), *presented, dns_name@, now, *final(self), r),
    {
        match presented {
            PresentedCertificate::Missing => Err(VerifyError::NoCertificatesPresented),
            PresentedCertificate::Malformed => Err(VerifyError::MalformedCertificate),
            PresentedCertificate::Parsed(cert) => {
                let check = check_certificate_for_domain(cert, dns_name, now);
                let issue = match check {
                    Ok(()) => match self.trust_cache.get_certificate_trust(cert, dns_name) {
                        Response::TrustedCertificate => {
                            return Ok(());
                        },
                        Response::FingerprintMismatch => VerificationIssue::FingerprintMismatch,
                        Response::UnknownCertificate => VerificationIssue::UnknownCertificate,
                    },
                    Err(e) => VerificationIssue::InvalidCertificate(e),
                };
                match self.delegate.decide_certificate_trust(cert, dns_name, issue) {
                    TrustDecision::Abort => Err(VerifyError::CertificateRejected),
                    TrustDecision::TrustTemporary => {
                        self.trust_cache.trust_certificate_once(cert, dns_name);
                        Ok(())
                    },
                    TrustDecision::TrustAlways => {
                        self.trust_cache.trust_certificate_always(cert, dns_name);
                        Ok(())
                    },
                }
            },
        }
    }
}

/// First use: the certificate is valid for the hostname, no trust state is
/// recorded, and the delegate grants temporary trust. Verification succeeds,
/// exactly one grant is recorded — a one-time one, for this pair — and the
/// cache afterwards reports the pair trusted, so a later verification of the
/// same pair succeeds without the delegate.
pub proof fn lemma_tofu_first_use<D: VerificationDelegate, C: CertificateTrustCache>(
    pre: CertificateVerifier<D, C>,
    cert: Certificate,
    dns_name: Seq<u8>,
    now: i64,
    post: CertificateVerifier<D, C>,
    r: Result<(), VerifyError>,
)
    requires
        verify_post(pre, PresentedCertificate::Parsed(cert), dns_name, now, post, r),
        check_spec(cert, dns_name, now) is Ok,
        pre.trust_cache.trust_view(cert, dns_name) is UnknownCertificate,
        pre.delegate.decision_view(cert, dns_name, VerificationIssue::UnknownCertificate)
            is TrustTemporary,
    ensures
        r == Ok::<(), VerifyError>(()),
        post.trust_cache.trust_view(cert, dns_name) == Response::TrustedCertificate,
        post.trust_cache.grants_view() == pre.trust_cache.grants_view().push(
            (cert.der@, dns_name, false),
        ),
{
}

/// A delegate granting persistent trust: verification succeeds and exactly
/// one grant is recorded — a persistent one, for this pair; no one-time
/// grant is made.
pub proof fn lemma_trust_always_records_one_persistent_grant<
    D: VerificationDelegate,
    C: CertificateTrustCache,
>(
    pre: CertificateVerifier<D, C>,
    cert: Certificate,
    dns_name: Seq<u8>,
    now: i64,
    post: CertificateVerifier<D, C>,
    r: Result<(), VerifyError>,
)
    requires
        verify_post(pre, PresentedCertificate::Parsed(cert), dns_name, now, post, r),
        !(check_spec(cert, dns_name, now) is Ok && pre.trust_cache.trust_view(cert, dns_name)
            is TrustedCertificate),
        pre.delegate.decision_view(
            cert,
            dns_name,
            issue_of(check_spec(cert, dns_name, now), pre.trust_cache.trust_view(cert, dns_name)),
        ) is TrustAlways,
    ensures
        r == Ok::<(), VerifyError>(()),
        post.trust_cache.trust_view(cert, dns_name) == Response::TrustedCertificate,
        post.trust_cache.grants_view() == pre.trust_cache.grants_view().push(
            (cert.der@, dns_name, true),
        ),
{
}

/// Revisit: the certificate is valid and the cache already reports it
/// trusted for the hostname. Verification succeeds immediately and nothing
/// is mutated — no requirement is placed on the delegate, so the conclusion
/// holds whatever it would decide: it is not consulted.
pub proof fn lemma_tofu_cached_trust<D: VerificationDelegate, C: CertificateTrustCache>(
    pre: CertificateVerifier<D, C>,
    cert: Certificate,
    dns_name: Seq<u8>,
    now: i64,
    post: CertificateVerifier<D, C>,
    r: Result<(), VerifyError>,
)
    requires
        verify_post(pre, PresentedCertificate::Parsed(cert), dns_name, now, post, r),
        check_spec(cert, dns_name, now) is Ok,
        pre.trust_cache.trust_view(cert, dns_name) is TrustedCertificate,
    ensures
        r == Ok::<(), VerifyError>(()),
        post == pre,
{
}

/// An aborting delegate fails the verification, and no cache mutation
/// occurs.
pub proof fn lemma_abort_mutates_nothing<D: VerificationDelegate, C: CertificateTrustCache>(
    pre: CertificateVerifier<D, C>,
    cert: Certificate,
    dns_name: Seq<u8>,
    now: i64,
    post: CertificateVerifier<D, C>,
    r: Result<(), VerifyError>,
)
    requires
        verify_post(pre, PresentedCertificate::Parsed(cert), dns_name, now, post, r),
        !(check_spec(cert, dns_name, now) is Ok && pre.trust_cache.trust_view(cert, dns_name)
            is TrustedCertificate),
        pre.delegate.decision_view(
            cert,
            dns_name,
            issue_of(check_spec(cert, dns_name, now), pre.trust_cache.trust_view(cert, dns_name)),
        ) is Abort,
    ensures
        r == Err::<(), VerifyError>(VerifyError::CertificateRejected),
        post == pre,
{
}

/// A certificate whose validity window excludes the time of the check is put
/// before the delegate as an invalid certificate, whatever the cache holds
/// and whether or not its names match the hostname.
pub proof fn lemma_invalid_window_is_an_issue(
    cert: Certificate,
    dns_name: Seq<u8>,
    now: i64,
    cached: Response,
)
    requires
        now < cert.not_before || now > cert.not_after,
    ensures
        issue_of(check_spec(cert, dns_name, now), cached) matches
            VerificationIssue::InvalidCertificate(e) && (e == CertificateError::CertNotValidYet
            || e == CertificateError::CertExpired),
{
}

/// One remembered trust grant.
pub struct TrustEntry {
    /// The hostname the grant is for.
    pub host: Vec<u8>,
    /// The identity of the trusted certificate: its DER encoding.
    pub der: Vec<u8>,
    /// Whether the grant was persistent (`trust_certificate_always`) or
    /// one-time (`trust_certificate_once`).
    pub persistent: bool,
}

/// The index of the most recent entry for `host`, or -1 when there is none.
pub open spec fn find_last_entry(entries: Seq<TrustEntry>, host: Seq<u8>) -> int
    decreases entries.len(),
{
    if entries.len() == 0 {
        -1
    } else if entries.last().host@ == host {
        entries.len() - 1
    } else {
        find_last_entry(entries.drop_last(), host)
    }
}

/// An in-memory trust cache. Grants are appended; the most recent grant for
/// a hostname is the one that counts.
pub struct MemoryTrustCache {
    pub entries: Vec<TrustEntry>,
}

impl MemoryTrustCache {
    /// An empty cache, which knows no certificate.
    pub fn new() -> (r: Self)
        ensures
            r.entries@ == Seq::<TrustEntry>::empty(),
    {
        MemoryTrustCache { entries: Vec::new() }
    }

    /// How many grants have been recorded.
    pub fn len(&self) -> (r: usize)
        ensures
            r == self.entries@.len(),
    {
        self.entries.len()
    }
}

proof fn lemma_find_last_entry_at(entries: Seq<TrustEntry>, host: Seq<u8>, i: int)
    requires
        0 <= i < entries.len(),
        entries[i].host@ == host,
        forall|j: int| i < j < entries.len() ==> entries[j].host@ != host,
    ensures
        find_last_entry(entries, host) == i,
    decreases entries.len(),
{
    if i == entries.len() - 1 {
    } else {
        assert(entries.last().host@ != host);
        assert(forall|j: int| i < j < entries.drop_last().len()
            ==> entries.drop_last()[j].host@ != host);
        lemma_find_last_entry_at(entries.drop_last(), host, i);
    }
}

proof fn lemma_find_last_entry_none(entries: Seq<TrustEntry>, host: Seq<u8>)
    requires
        forall|j: int| 0 <= j < entries.len() ==> entries[j].host@ != host,
    ensures
        find_last_entry(entries, host) == -1,
    decreases entries.len(),
{
    if entries.len() > 0 {
        lemma_find_last_entry_none(entries.drop_last(), host);
    }
}

impl MemoryTrustCache {
    fn record(&mut self, certificate: &Certificate, dns_name: &[u8], persistent: bool)
        ensures
            final(self).entries@.len() == old(self).entries@.len() + 1,
            final(self).entries@.drop_last() == old(self).entries@,
            final(self).entries@.last().host@ == dns_name@,
            final(self).entries@.last().der@ == certificate.der@,
            final(self).entries@.last().persistent == persistent,
    {
        let entry = TrustEntry {
            host: slice_to_vec(dns_name),
            der: slice_to_vec(certificate.der.as_slice()),
            persistent,
        };
        self.entries.push(entry);
        proof {
            assert(self.entries@.drop_last() =~= old(self).entries@);
        }
    }
}

impl CertificateTrustCache for MemoryTrustCache {
    open spec fn trust_view(&self, certificate: Certificate, dns_name: Seq<u8>) -> Response {
        let i = find_last_entry(self.entries@, dns_name);
        if i < 0 {
            Response::UnknownCertificate
        } else if self.entries@[i].der@ == certificate.der@ {
            Response::TrustedCertificate
        } else {
            Response::FingerprintMismatch
        }
    }

    open spec fn grants_view(&self) -> Seq<(Seq<u8>, Seq<u8>, bool)> {
        self.entries@.map_values(|e: TrustEntry| (e.der@, e.host@, e.persistent))
    }

    fn get_certificate_trust(&self, certificate: &Certificate, dns_name: &[u8]) -> (r: Response) {
        let mut i = self.entries.len();
        while i > 0
            invariant
                0 <= i <= self.entries@.len(),
                forall|j: int| i <= j < self.entries@.len() ==> self.entries@[j].host@ != dns_name@,
            decreases i,
        {
            let entry: &TrustEntry = &self.entries[i - 1];
            if bytes_equal_vec(&entry.host, dns_name) {
                proof {
                    lemma_find_last_entry_at(self.entries@, dns_name@, i - 1);
                }
                if bytes_equal_vec(&entry.der, certificate.der.as_slice()) {
                    return Response::TrustedCertificate;
                } else {
                    return Response::FingerprintMismatch;
                }
            }
            i = i - 1;
        }
        proof {
            lemma_find_last_entry_none(self.entries@, dns_name@);
        }
        Response::UnknownCertificate
    }

    fn trust_certificate_once(&mut self, certificate: &Certificate, dns_name: &[u8]) {
        self.record(certificate, dns_name, false);
        proof {
            lemma_record_updates_view(*old(self), *self, *certificate, dns_name@);
            lemma_record_appends_grant(*old(self), *self, *certificate, dns_name@, false);
        }
    }

    fn trust_certificate_always(&mut self, certificate: &Certificate, dns_name: &[u8]) {
        self.record(certificate, dns_name, true);
        proof {
            lemma_record_updates_view(*old(self), *self, *certificate, dns_name@);
            lemma_record_appends_grant(*old(self), *self, *certificate, dns_name@, true);
        }
    }
}

proof fn lemma_record_appends_grant(
    pre: MemoryTrustCache,
    post: MemoryTrustCache,
    certificate: Certificate,
    dns_name: Seq<u8>,
    persistent: bool,
)
    requires
        post.entries@.len() == pre.entries@.len() + 1,
        post.entries@.drop_last() =~= pre.entries@,
        post.entries@.last().host@ == dns_name,
        post.entries@.last().der@ == certificate.der@,
        post.entries@.last().persistent == persistent,
    ensures
        post.grants_view() == pre.grants_view().push((certificate.der@, dns_name, persistent)),
{
    assert forall|i: int| 0 <= i < pre.entries@.len() implies post.entries@[i]
        == pre.entries@[i] by {
        assert(post.entries@.drop_last()[i] == post.entries@[i]);
    }
    assert(post.grants_view() =~= pre.grants_view().push(
        (certificate.der@, dns_name, persistent),
    ));
}

proof fn lemma_record_updates_view(
    pre: MemoryTrustCache,
    post: MemoryTrustCache,
    certificate: Certificate,
    dns_name: Seq<u8>,
)
    requires
        post.entries@.len() == pre.entries@.len() + 1,
        post.entries@.drop_last() =~= pre.entries@,
        post.entries@.last().host@ == dns_name,
        post.entries@.last().der@ == certificate.der@,
    ensures
        post.trust_view(certificate, dns_name) == Response::TrustedCertificate,
        forall|c: Certificate, h: Seq<u8>|
            h != dns_name ==> post.trust_view(c, h) == pre.trust_view(c, h),
{
    assert(find_last_entry(post.entries@, dns_name) == post.entries@.len() - 1);
    assert forall|c: Certificate, h: Seq<u8>| h != dns_name implies post.trust_view(c, h)
        == pre.trust_view(c, h) by {
        assert(post.entries@.last().host@ != h);
        assert(find_last_entry(post.entries@, h) == find_last_entry(pre.entries@, h));
        let i = find_last_entry(pre.entries@, h);
        if i >= 0 {
            lemma_find_last_entry_bounds(pre.entries@, h);
            assert(post.entries@[i] == pre.entries@[i]);
        }
    }
}

proof fn lemma_find_last_entry_bounds(entries: Seq<TrustEntry>, host: Seq<u8>)
    ensures
        -1 <= find_last_entry(entries, host) < entries.len(),
    decreases entries.len(),
{
    if entries.len() > 0 {
        lemma_find_last_entry_bounds(entries.drop_last(), host);
    }
}

fn bytes_equal_vec(a: &Vec<u8>, b: &[u8]) -> (r: bool)
    ensures
        r == (a@ == b@),
{
    if a.len() != b.len() {
        return false;
    }
    let len = a.len();
    let mut i: usize = 0;
    while i < len
        invariant
            len == a@.len() == b@.len(),
            0 <= i <= len,
            forall|j: int| 0 <= j < i ==> a@[j] == b@[j],
        decreases len - i,
    {
        if a[i] != *slice_index_get(b, i) {
            return false;
        }
        i = i + 1;
    }
    proof {
        assert(a@ =~= b@);
    }
    true
}

/// A delegate that always answers with one fixed decision, applying no
/// judgment of its own.
pub struct StaticDelegate {
    pub decision: TrustDecision,
}

impl VerificationDelegate for StaticDelegate {
    open spec fn decision_view(
        &self,
        certificate: Certificate,
        dns_name: Seq<u8>,
        issue: VerificationIssue,
    ) -> TrustDecision {
        self.decision
    }

    fn decide_certificate_trust(
        &self,
        certificate: &Certificate,
        dns_name: &[u8],
        issue: VerificationIssue,
    ) -> (r: TrustDecision) {
        self.decision
    }
}

} // verus!
