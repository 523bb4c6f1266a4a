use gemini::fingerprints::Fingerprint;

#[test]
fn default_fingerprint() {
    let fingerprint = Fingerprint::new(&[]);
    assert_eq!(
        fingerprint.display_string(),
        "SHA-256:E3:B0:C4:42:98:FC:1C:14:9A:FB:F4:C8:99:6F:B9:24:27:AE:41:E4:64:9B:93:4C:A4:95:99:1B:78:52:B8:55",
    );
}

#[test]
fn fingerprint_is_deterministic() {
    let a = Fingerprint::new(b"hello");
    let b = Fingerprint::new(b"hello");
    assert_eq!(a.display_string(), b.display_string());
}

#[test]
fn fingerprint_of_abc() {
    // SHA-256 of "abc", a standard test vector.
    let fingerprint = Fingerprint::new(b"abc");
    assert_eq!(
        fingerprint.display_string(),
        "SHA-256:BA:78:16:BF:8F:01:CF:EA:41:41:40:DE:5D:AE:22:23:B0:03:61:A3:96:17:7A:9C:B4:10:FF:61:F2:00:15:AD",
    );
}

#[test]
fn different_inputs_differ() {
    let a = Fingerprint::new(b"a");
    let b = Fingerprint::new(b"b");
    assert_ne!(a.display_string(), b.display_string());
}
