//! Matching a certificate's claimed identity against a requested hostname,
//! together with the validity-window check.
//!
//! A certificate is taken here in an already-parsed form: the plain values
//! the checks read (validity window, subject alternative DNS names, common
//! names). Matching works on ASCII DNS names, by labels: an exact
//! case-insensitive match succeeds, and a pattern whose leftmost label is
//! exactly `*` matches a hostname with the same number of labels where only
//! that leftmost label differs. Internationalized names are out of scope.

use vstd::prelude::*;

verus! {

use vstd::slice::{slice_index_get, slice_subrange, slice_to_vec};

/// What the verification logic reads of a certificate, as plain values. The
/// raw DER encoding is carried along as the certificate's identity for trust
/// caching.
pub struct Certificate {
    /// The DER encoding the certificate was parsed from.
    pub der: Vec<u8>,
    /// Start of the validity window, as seconds since the epoch.
    pub not_before: i64,
    /// End of the validity window, as seconds since the epoch.
    pub not_after: i64,
    /// The DNS entries of the subject alternative name extension, in order.
    pub san_dns_names: Vec<Vec<u8>>,
    /// The common name attribute values of the subject, in order.
    pub common_names: Vec<Vec<u8>>,
}

/// Why a certificate is not valid for a hostname at a given time.
#[derive(Clone, Copy, Debug, PartialEq, Eq, Structural)]
pub enum CertificateError {
    /// The time of the check precedes the validity window.
    CertNotValidYet,
    /// The time of the check is past the validity window.
    CertExpired,
    /// No claimed identity of the certificate matches the hostname.
    CertNotValidForName,
}

/// ASCII lowercasing of one byte.
pub open spec fn to_lower(b: u8) -> u8 {
    if 65 <= b <= 90 {
        (b + 32) as u8
    } else {
        b
    }
}

/// Byte sequences equal up to ASCII case.
pub open spec fn eq_ignore_case(a: Seq<u8>, b: Seq<u8>) -> bool {
    &&& a.len() == b.len()
    &&& forall|i: int| 0 <= i < a.len() ==> to_lower(a[i]) == to_lower(b[i])
}

/// The sequence with trailing dots removed, as allowed in absolute DNS
/// names.
pub open spec fn trim_dots(s: Seq<u8>) -> Seq<u8>
    decreases s.len(),
{
    if s.len() > 0 && s.last() == 46 {
        trim_dots(s.drop_last())
    } else {
        s
    }
}

/// The name split into its labels at every dot. The empty name has one empty
/// label; a dot always separates two labels, so `a..b` has an empty middle
/// label.
pub open spec fn labels(s: Seq<u8>) -> Seq<Seq<u8>>
    decreases s.len(),
{
    if s.len() == 0 {
        seq![Seq::<u8>::empty()]
    } else if s[0] == 46 {
        seq![Seq::<u8>::empty()] + labels(s.drop_first())
    } else {
        let rest = labels(s.drop_first());
        seq![seq![s[0]] + rest[0]] + rest.drop_first()
    }
}

pub proof fn lemma_labels_len(s: Seq<u8>)
    ensures
        labels(s).len() >= 1,
    decreases s.len(),
{
    if s.len() > 0 {
        lemma_labels_len(s.drop_first());
    }
}

/// A name without dots is one single label.
pub proof fn lemma_labels_no_dot(s: Seq<u8>)
    requires
        forall|j: int| 0 <= j < s.len() ==> s[j] != 46,
    ensures
        labels(s) == seq![s],
    decreases s.len(),
{
    if s.len() == 0 {
        assert(labels(s) =~~= seq![s]);
    } else {
        assert(forall|j: int| 0 <= j < s.drop_first().len() ==> s.drop_first()[j] != 46);
        lemma_labels_no_dot(s.drop_first());
        lemma_labels_len(s.drop_first());
        assert(seq![s[0]] + s.drop_first() =~= s);
        assert(labels(s) =~~= seq![s]);
    }
}

/// Splitting at the first dot: the part before it is the first label, and
/// the rest splits on its own.
pub proof fn lemma_labels_split_at_dot(s: Seq<u8>, i: int)
    requires
        0 <= i < s.len(),
        s[i] == 46,
        forall|j: int| 0 <= j < i ==> s[j] != 46,
    ensures
        labels(s) == seq![s.take(i)] + labels(s.skip(i + 1)),
    decreases i,
{
    if i == 0 {
        assert(s.take(0) =~= Seq::<u8>::empty());
        assert(s.skip(1) =~= s.drop_first());
        assert(labels(s) =~~= seq![s.take(0)] + labels(s.skip(1)));
    } else {
        let d = s.drop_first();
        assert(d[i - 1] == s[i]);
        assert(forall|j: int| 0 <= j < i - 1 ==> d[j] == s[j + 1] && s[j + 1] != 46);
        lemma_labels_split_at_dot(d, i - 1);
        lemma_labels_len(d.skip(i));
        assert(seq![s[0]] + d.take(i - 1) =~= s.take(i));
        assert(d.skip(i) =~= s.skip(i + 1));
        assert(labels(s) =~~= seq![s.take(i)] + labels(s.skip(i + 1)));
    }
}

/// Label-by-label matching, from the rightmost (most significant) label
/// down. A pattern label that is exactly `*` must be the leftmost label of
/// the pattern and stands for exactly one hostname label, which must also be
/// the leftmost; every other label must match up to ASCII case.
pub open spec fn labels_match(n: Seq<Seq<u8>>, p: Seq<Seq<u8>>) -> bool
    decreases p.len(),
{
    if p.len() == 0 {
        n.len() == 0
    } else if n.len() == 0 {
        false
    } else if p.last() == seq![42u8] {
        n.len() == 1 && p.len() == 1
    } else {
        eq_ignore_case(n.last(), p.last()) && labels_match(n.drop_last(), p.drop_last())
    }
}

/// When a hostname matches a candidate name taken from a certificate:
/// exactly, or label by label after trailing dots are trimmed.
pub open spec fn name_matches(name: Seq<u8>, pattern: Seq<u8>) -> bool {
    ||| name == pattern
    ||| labels_match(labels(trim_dots(name)), labels(trim_dots(pattern)))
}

/// The views of a sequence of byte vectors.
pub open spec fn views_of(v: Seq<Vec<u8>>) -> Seq<Seq<u8>> {
    v.map_values(|x: Vec<u8>| x@)
}

fn bytes_equal(a: &[u8], b: &[u8]) -> (r: bool)
    ensures
        r == (a@ == b@),
{
    if a.len() != b.len() {
        return false;
    }
    let len = a.len();
    let mut i: usize = 0;
    while i < len
        invariant
            len == a@.len() == b@.len(),
            0 <= i <= len,
            forall|j: int| 0 <= j < i ==> a@[j] == b@[j],
        decreases len - i,
    {
        if *slice_index_get(a, i) != *slice_index_get(b, i) {
            return false;
        }
        i = i + 1;
    }
    proof {
        assert(a@ =~= b@);
    }
    true
}

fn eq_ignore_case_exec(a: &[u8], b: &[u8]) -> (r: bool)
    ensures
        r == eq_ignore_case(a@, b@),
{
    if a.len() != b.len() {
        return false;
    }
    let len = a.len();
    let mut i: usize = 0;
    while i < len
        invariant
            len == a@.len() == b@.len(),
            0 <= i <= len,
            forall|j: int| 0 <= j < i ==> to_lower(a@[j]) == to_lower(b@[j]),
        decreases len - i,
    {
        let x = *slice_index_get(a, i);
        let y = *slice_index_get(b, i);
        let xl = if 65 <= x && x <= 90 {
            x + 32
        } else {
            x
        };
        let yl = if 65 <= y && y <= 90 {
            y + 32
        } else {
            y
        };
        if xl != yl {
            return false;
        }
        i = i + 1;
    }
    true
}

fn trim_trailing_dots<'a>(s: &'a [u8]) -> (r: &'a [u8])
    ensures
        r@ == trim_dots(s@),
{
    let mut end = s.len();
    proof {
        assert(s@.take(s@.len() as int) =~= s@);
    }
    while end > 0 && *slice_index_get(s, end - 1) == 46
        invariant
            0 <= end <= s@.len(),
            trim_dots(s@) == trim_dots(s@.take(end as int)),
        decreases end,
    {
        proof {
            assert(s@.take(end as int).drop_last() =~= s@.take(end - 1));
        }
        end = end - 1;
    }
    proof {
        assert(s@.take(s@.len() as int) =~= s@);
        if end > 0 {
            assert(s@.take(end as int).last() == s@[end - 1]);
        }
        assert(trim_dots(s@.take(end as int)) == s@.take(end as int));
    }
    slice_subrange(s, 0, end)
}

fn split_labels(s: &[u8]) -> (r: Vec<Vec<u8>>)
    ensures
        views_of(r@) == labels(s@),
{
    let mut result: Vec<Vec<u8>> = Vec::new();
    let mut start: usize = 0;
    let mut i: usize = 0;
    proof {
        assert(views_of(result@) =~= Seq::<Seq<u8>>::empty());
        assert(s@.skip(0) =~= s@);
    }
    while i < s.len()
        invariant
            0 <= start <= i <= s@.len(),
            labels(s@) == views_of(result@) + labels(s@.skip(start as int)),
            forall|j: int| start <= j < i ==> s@[j] != 46,
        decreases s@.len() - i,
    {
        if *slice_index_get(s, i) == 46 {
            let lab = slice_to_vec(slice_subrange(s, start, i));
            let ghost old_views = views_of(result@);
            result.push(lab);
            proof {
                let tail = s@.skip(start as int);
                assert(tail[i - start] == s@[i as int]);
                assert(forall|j: int| 0 <= j < i - start ==> tail[j] == s@[start + j]);
                lemma_labels_split_at_dot(tail, i - start);
                assert(tail.take(i - start) =~= s@.subrange(start as int, i as int));
                assert(tail.skip(i - start + 1) =~= s@.skip(i + 1));
                assert(lab@ == tail.take(i - start));
                assert(views_of(result@) =~= old_views + seq![lab@]);
                assert(views_of(result@) + labels(s@.skip(i + 1)) =~= labels(s@));
            }
            start = i + 1;
        }
        i = i + 1;
    }
    let len = s.len();
    let lab = slice_to_vec(slice_subrange(s, start, len));
    let ghost old_views = views_of(result@);
    result.push(lab);
    proof {
        let tail = s@.skip(start as int);
        assert(forall|j: int| 0 <= j < tail.len() ==> tail[j] == s@[start + j]);
        lemma_labels_no_dot(tail);
        assert(lab@ =~= tail);
        assert(views_of(result@) =~= old_views + seq![lab@]);
        assert(views_of(result@) =~= labels(s@));
    }
    result
}

fn is_wildcard(l: &[u8]) -> (r: bool)
    ensures
        r == (l@ == seq![42u8]),
{
    if l.len() == 1 && *slice_index_get(l, 0) == 42 {
        proof {
            assert(l@ =~= seq![42u8]);
        }
        true
    } else {
        proof {
            if l@ == seq![42u8] {
                assert(l@.len() == 1 && l@[0] == 42);
            }
        }
        false
    }
}

fn labels_match_exec(n: &Vec<Vec<u8>>, p: &Vec<Vec<u8>>) -> (r: bool)
    ensures
        r == labels_match(views_of(n@), views_of(p@)),
{
    let ghost nv = views_of(n@);
    let ghost pv = views_of(p@);
    let mut ni = n.len();
    let mut pi = p.len();
    proof {
        assert(nv.take(nv.len() as int) =~= nv);
        assert(pv.take(pv.len() as int) =~= pv);
    }
    loop
        invariant
            0 <= ni <= nv.len(),
            0 <= pi <= pv.len(),
            nv == views_of(n@),
            pv == views_of(p@),
            nv.len() == n@.len(),
            pv.len() == p@.len(),
            labels_match(nv.take(ni as int), pv.take(pi as int)) == labels_match(nv, pv),
        decreases pi,
    {
        if pi == 0 {
            return ni == 0;
        }
        if ni == 0 {
            return false;
        }
        let pl: &Vec<u8> = &p[pi - 1];
        proof {
            assert(pv.take(pi as int).last() == pl@);
            assert(nv.take(ni as int).last() == views_of(n@)[ni - 1]);
        }
        if is_wildcard(pl.as_slice()) {
            return ni == 1 && pi == 1;
        }
        let nl: &Vec<u8> = &n[ni - 1];
        if !eq_ignore_case_exec(nl.as_slice(), pl.as_slice()) {
            return false;
        }
        proof {
            assert(nv.take(ni as int).drop_last() =~= nv.take(ni - 1));
            assert(pv.take(pi as int).drop_last() =~= pv.take(pi - 1));
        }
        ni = ni - 1;
        pi = pi - 1;
    }
}

/// Whether a hostname matches a candidate name taken from a certificate
/// (the pattern): exactly, or label by label after trimming trailing dots,
/// with the wildcard rule for a leftmost `*` pattern label. ASCII only.
pub fn dns_name_matches(dns_name: &[u8], pattern: &[u8]) -> (r: bool)
    ensures
        r == name_matches(dns_name@, pattern@),
{
    if bytes_equal(dns_name, pattern) {
        return true;
    }
    let n_trim = trim_trailing_dots(dns_name);
    let p_trim = trim_trailing_dots(pattern);
    let n_labels = split_labels(n_trim);
    let p_labels = split_labels(p_trim);
    labels_match_exec(&n_labels, &p_labels)
}

/// Whether any claimed identity of the certificate matches the hostname:
/// first the subject alternative DNS names, then the common names.
pub open spec fn cert_matches_domain(cert: Certificate, name: Seq<u8>) -> bool {
    ||| exists|i: int|
        0 <= i < cert.san_dns_names@.len() && name_matches(name, cert.san_dns_names@[i]@)
    ||| exists|i: int|
        0 <= i < cert.common_names@.len() && name_matches(name, cert.common_names@[i]@)
}

/// What checking a certificate against a hostname at time `now` yields: the
/// validity window is checked first, then the claimed identities.
pub open spec fn check_spec(cert: Certificate, name: Seq<u8>, now: i64) -> Result<
    (),
    CertificateError,
> {
    if now < cert.not_before {
        Err(CertificateError::CertNotValidYet)
    } else if now > cert.not_after {
        Err(CertificateError::CertExpired)
    } else if !cert_matches_domain(cert, name) {
        Err(CertificateError::CertNotValidForName)
    } else {
        Ok(())
    }
}

/// Whether the certificate claims an identity matching the hostname, looking
/// at the subject alternative DNS names first and the common names after.
pub fn certificate_matches_domain(certificate: &Certificate, dns_name: &[u8]) -> (r: bool)
    ensures
        r == cert_matches_domain(*certificate, dns_name@),
{
    let mut i: usize = 0;
    while i < certificate.san_dns_names.len()
        invariant
            0 <= i <= certificate.san_dns_names@.len(),
            forall|j: int|
                0 <= j < i ==> !name_matches(dns_name@, certificate.san_dns_names@[j]@),
        decreases certificate.san_dns_names@.len() - i,
    {
        let candidate: &Vec<u8> = &certificate.san_dns_names[i];
        if dns_name_matches(dns_name, candidate.as_slice()) {
            return true;
        }
        i = i + 1;
    }
    let mut i: usize = 0;
    while i < certificate.common_names.len()
        invariant
            0 <= i <= certificate.common_names@.len(),
            forall|j: int| 0 <= j < certificate.san_dns_names@.len()
                ==> !name_matches(dns_name@, certificate.san_dns_names@[j]@),
            forall|j: int| 0 <= j < i ==> !name_matches(dns_name@, certificate.common_names@[j]@),
        decreases certificate.common_names@.len() - i,
    {
        let candidate: &Vec<u8> = &certificate.common_names[i];
        if dns_name_matches(dns_name, candidate.as_slice()) {
            return true;
        }
        i = i + 1;
    }
    false
}

/// Checks that the certificate is currently within its validity window and
/// claims an identity matching the hostname. `now` is the time of the check,
/// in seconds since the epoch.
pub fn check_certificate_for_domain(certificate: &Certificate, dns_name: &[u8], now: i64) -> (r:
    Result<(), CertificateError>)
    ensures
        r == check_spec(*certificate, dns_name@, now),
{
    if now < certificate.not_before {
        return Err(CertificateError::CertNotValidYet);
    }
    if now > certificate.not_after {
        return Err(CertificateError::CertExpired);
    }
    if !certificate_matches_domain(certificate, dns_name) {
        return Err(CertificateError::CertNotValidForName);
    }
    Ok(())
}

proof fn lemma_trim_dots_respects_case(a: Seq<u8>, b: Seq<u8>)
    requires
        eq_ignore_case(a, b),
    ensures
        eq_ignore_case(trim_dots(a), trim_dots(b)),
    decreases a.len(),
{
    if a.len() > 0 {
        assert(to_lower(a.last()) == to_lower(b.last()));
        assert(a.last() == 46 <==> b.last() == 46);
        if a.last() == 46 {
            assert(eq_ignore_case(a.drop_last(), b.drop_last()));
            lemma_trim_dots_respects_case(a.drop_last(), b.drop_last());
        }
    }
}

proof fn lemma_labels_respect_case(a: Seq<u8>, b: Seq<u8>)
    requires
        eq_ignore_case(a, b),
    ensures
        labels(a).len() == labels(b).len(),
        forall|i: int|
            0 <= i < labels(a).len() ==> eq_ignore_case(labels(a)[i], labels(b)[i]),
    decreases a.len(),
{
    if a.len() == 0 {
        assert(eq_ignore_case(labels(a)[0], labels(b)[0]));
    } else {
        assert(to_lower(a[0]) == to_lower(b[0]));
        assert(a[0] == 46 <==> b[0] == 46);
        assert(eq_ignore_case(a.drop_first(), b.drop_first()));
        lemma_labels_respect_case(a.drop_first(), b.drop_first());
        let ra = labels(a.drop_first());
        let rb = labels(b.drop_first());
        if a[0] == 46 {
            assert forall|i: int| 0 <= i < labels(a).len() implies eq_ignore_case(
                labels(a)[i],
                labels(b)[i],
            ) by {
                if i > 0 {
                    assert(labels(a)[i] == ra[i - 1]);
                    assert(labels(b)[i] == rb[i - 1]);
                }
            }
        } else {
            lemma_labels_len(a.drop_first());
            let ha = seq![a[0]] + ra[0];
            let hb = seq![b[0]] + rb[0];
            assert(eq_ignore_case(ha, hb)) by {
                assert(ha.len() == hb.len());
                assert forall|i: int| 0 <= i < ha.len() implies to_lower(ha[i]) == to_lower(
                    hb[i],
                ) by {
                    if i > 0 {
                        assert(ha[i] == ra[0][i - 1]);
                        assert(hb[i] == rb[0][i - 1]);
                    }
                }
            }
            assert forall|i: int| 0 <= i < labels(a).len() implies eq_ignore_case(
                labels(a)[i],
                labels(b)[i],
            ) by {
                if i > 0 {
                    assert(labels(a)[i] == ra.drop_first()[i - 1]);
                    assert(labels(b)[i] == rb.drop_first()[i - 1]);
                    assert(ra.drop_first()[i - 1] == ra[i]);
                    assert(rb.drop_first()[i - 1] == rb[i]);
                }
            }
        }
    }
}

proof fn lemma_labels_match_of_eq_labels(n: Seq<Seq<u8>>, p: Seq<Seq<u8>>)
    requires
        n.len() == p.len(),
        forall|i: int| 0 <= i < n.len() ==> eq_ignore_case(n[i], p[i]),
        forall|i: int| 0 <= i < p.len() ==> p[i] != seq![42u8],
    ensures
        labels_match(n, p),
    decreases p.len(),
{
    if p.len() > 0 {
        assert(eq_ignore_case(n.last(), p.last()));
        assert(p.last() != seq![42u8]);
        assert(forall|i: int|
            0 <= i < n.drop_last().len() ==> eq_ignore_case(n.drop_last()[i], p.drop_last()[i]));
        assert(forall|i: int| 0 <= i < p.drop_last().len() ==> p.drop_last()[i] != seq![42u8]);
        lemma_labels_match_of_eq_labels(n.drop_last(), p.drop_last());
    }
}

/// An exact match up to ASCII case succeeds, for every pattern in which no
/// label is the wildcard label. (A pattern with a wildcard label matches by
/// the wildcard rule or byte-for-byte equality instead: the wildcard stands
/// for one whole hostname label, never for a label that differs from it only
/// in case elsewhere.)
pub proof fn lemma_exact_match_case_insensitive(name: Seq<u8>, pattern: Seq<u8>)
    requires
        eq_ignore_case(name, pattern),
        forall|i: int|
            0 <= i < labels(trim_dots(pattern)).len() ==> labels(trim_dots(pattern))[i] != seq![
                42u8,
            ],
    ensures
        name_matches(name, pattern),
{
    lemma_trim_dots_respects_case(name, pattern);
    lemma_labels_respect_case(trim_dots(name), trim_dots(pattern));
    lemma_labels_match_of_eq_labels(labels(trim_dots(name)), labels(trim_dots(pattern)));
}

/// A wildcard stands for exactly one label and never matches across several:
/// any match by labels forces the hostname and the pattern to have the same
/// number of labels.
pub proof fn lemma_match_preserves_label_count(n: Seq<Seq<u8>>, p: Seq<Seq<u8>>)
    requires
        labels_match(n, p),
    ensures
        n.len() == p.len(),
    decreases p.len(),
{
    if p.len() > 0 && n.len() > 0 && p.last() != seq![42u8] {
        lemma_match_preserves_label_count(n.drop_last(), p.drop_last());
    }
}

/// A certificate whose validity window excludes the time of the check is
/// classified invalid regardless of whether any of its names matches the
/// hostname.
pub proof fn lemma_invalid_window_never_checks_names(cert: Certificate, name: Seq<u8>, now: i64)
    requires
        now < cert.not_before || now > cert.not_after,
    ensures
        check_spec(cert, name, now) == Err::<(), CertificateError>(
            if now < cert.not_before {
                CertificateError::CertNotValidYet
            } else {
                CertificateError::CertExpired
            },
        ),
{
}

} // verus!
