use gemini::request::{Error, Request};

#[test]
fn plain_url_gets_the_default_port() {
    let plan = Request::prepare("gemini://example.com/").expect("url must parse");
    assert_eq!(plan.host, "example.com");
    assert_eq!(plan.port, 1965);
    assert_eq!(plan.absolute, "gemini://example.com/");
    assert_eq!(plan.line, b"gemini://example.com/\r\n".to_vec());
}

#[test]
fn explicit_port_is_kept() {
    let plan = Request::prepare("gemini://example.com:1966/docs").expect("url must parse");
    assert_eq!(plan.host, "example.com");
    assert_eq!(plan.port, 1966);
}

#[test]
fn unparsable_url_is_rejected() {
    assert!(matches!(Request::prepare("://nonsense"), Err(Error::URL)));
}

#[test]
fn hostless_url_is_rejected() {
    assert!(matches!(Request::prepare("data:text/plain,hello"), Err(Error::URL)));
}

#[test]
fn request_line_ends_in_crlf() {
    let plan = Request::prepare("gemini://example.com/a/b?q=1").expect("url must parse");
    assert!(plan.line.ends_with(b"\r\n"));
    assert_eq!(&plan.line[..plan.line.len() - 2], plan.absolute.as_bytes());
}
