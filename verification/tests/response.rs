use gemini::response::{
    Error, ProtocolError, ReadOutcome, Response, StreamEvent, line_ending, parse_header,
};
use gemini::status::Status;

fn data(bytes: &[u8]) -> Option<StreamEvent> {
    Some(StreamEvent::Data(bytes.to_vec()))
}

#[test]
fn header_with_meta_parses() {
    let (status, meta) = parse_header(b"20 text/gemini").expect("header must parse");
    assert_eq!(status, Status::Success);
    assert_eq!(meta, "text/gemini");
}

#[test]
fn header_without_meta_parses() {
    let (status, meta) = parse_header(b"59").expect("header must parse");
    assert_eq!(status, Status::BadRequest);
    assert_eq!(meta, "");
}

#[test]
fn short_header_is_rejected() {
    assert_eq!(parse_header(b"1"), Err(ProtocolError::HeaderTooShort));
    assert_eq!(parse_header(b""), Err(ProtocolError::HeaderTooShort));
}

#[test]
fn header_without_space_is_malformed() {
    assert_eq!(parse_header(b"20X"), Err(ProtocolError::HeaderMalformed));
}

#[test]
fn header_without_digits_is_malformed() {
    assert_eq!(parse_header(b"2x meta"), Err(ProtocolError::HeaderMalformed));
    assert_eq!(parse_header(b"+5 meta"), Err(ProtocolError::HeaderMalformed));
}

#[test]
fn unrecognized_status_is_reported() {
    assert_eq!(parse_header(b"99 meta"), Err(ProtocolError::UnknownStatus));
}

#[test]
fn meta_must_be_utf8() {
    assert_eq!(parse_header(b"20 \xff\xfe"), Err(ProtocolError::HeaderMalformed));
}

#[test]
fn multibyte_meta_decodes() {
    // "k\u{f6}nig" in UTF-8; handing the raw bytes through unchanged would
    // not be a string of these characters.
    let (status, meta) = parse_header(b"20 k\xc3\xb6nig").expect("header must parse");
    assert_eq!(status, Status::Success);
    assert_eq!(meta, "k\u{f6}nig");
}

#[test]
fn line_ending_finds_first_crlf() {
    assert_eq!(line_ending(b"ab\r\ncd\r\n"), Some(2));
    assert_eq!(line_ending(b"\r\n"), Some(0));
    assert_eq!(line_ending(b"abc"), None);
    assert_eq!(line_ending(b"a\rb\nc"), None);
    assert_eq!(line_ending(b""), None);
}

#[test]
fn header_and_body_in_one_read() {
    let mut response = Response::new();
    assert_eq!(response.read_step(None, 16), ReadOutcome::NeedRead);
    let outcome = response.read_step(data(b"20 text/gemini\r\nBODY"), 16);
    assert_eq!(outcome, ReadOutcome::Data(b"BODY".to_vec()));
    assert_eq!(response.status, Status::Success);
    assert_eq!(response.meta, "text/gemini");
}

#[test]
fn lookahead_served_before_any_further_read() {
    let mut response = Response::new();
    // The read that delivers the terminator also delivers extra bytes.
    let outcome = response.read_step(data(b"20 ok\r\nABCD"), 2);
    assert_eq!(outcome, ReadOutcome::Data(b"AB".to_vec()));
    // The rest is served without asking for another stream read.
    let outcome = response.read_step(None, 16);
    assert_eq!(outcome, ReadOutcome::Data(b"CD".to_vec()));
    // Only then does the machine ask for a read again.
    assert_eq!(response.read_step(None, 16), ReadOutcome::NeedRead);
}

#[test]
fn header_split_across_reads() {
    let mut response = Response::new();
    assert_eq!(response.read_step(data(b"20 te"), 16), ReadOutcome::NeedRead);
    let outcome = response.read_step(data(b"xt\r\nAB"), 16);
    assert_eq!(outcome, ReadOutcome::Data(b"AB".to_vec()));
    assert_eq!(response.meta, "text");
}

#[test]
fn terminator_split_across_reads() {
    let mut response = Response::new();
    assert_eq!(response.read_step(data(b"20 ok\r"), 16), ReadOutcome::NeedRead);
    let outcome = response.read_step(data(b"\nXY"), 16);
    assert_eq!(outcome, ReadOutcome::Data(b"XY".to_vec()));
}

#[test]
fn header_too_long_without_terminator() {
    let mut response = Response::new();
    let outcome = response.read_step(data(&[b'a'; 1025]), 16);
    assert_eq!(
        outcome,
        ReadOutcome::Failed(Error::Protocol(ProtocolError::HeaderTooLong))
    );
}

#[test]
fn header_cap_reached_in_pieces() {
    let mut response = Response::new();
    assert_eq!(response.read_step(data(&[b'a'; 1000]), 16), ReadOutcome::NeedRead);
    let outcome = response.read_step(data(&[b'a'; 25]), 16);
    assert_eq!(
        outcome,
        ReadOutcome::Failed(Error::Protocol(ProtocolError::HeaderTooLong))
    );
}

#[test]
fn termination_mid_header() {
    let mut response = Response::new();
    assert_eq!(response.read_step(data(b"20 tex"), 16), ReadOutcome::NeedRead);
    let outcome = response.read_step(Some(StreamEvent::Terminated), 16);
    assert_eq!(
        outcome,
        ReadOutcome::Failed(Error::Protocol(ProtocolError::UnexpectedEndOfStream))
    );
}

#[test]
fn interruption_mid_header_retries() {
    let mut response = Response::new();
    assert_eq!(
        response.read_step(Some(StreamEvent::Interrupted), 16),
        ReadOutcome::NeedRead
    );
    let outcome = response.read_step(data(b"20 ok\r\nZ"), 16);
    assert_eq!(outcome, ReadOutcome::Data(b"Z".to_vec()));
}

#[test]
fn interruption_mid_body_is_surfaced() {
    let mut response = Response::new();
    assert_eq!(response.read_step(data(b"20 ok\r\n"), 16), ReadOutcome::NeedRead);
    assert_eq!(
        response.read_step(Some(StreamEvent::Interrupted), 16),
        ReadOutcome::Failed(Error::Interrupted)
    );
}

#[test]
fn termination_is_permanent() {
    let mut response = Response::new();
    assert_eq!(response.read_step(data(b"20 ok\r\n"), 16), ReadOutcome::NeedRead);
    assert_eq!(response.read_step(data(b"BODY"), 16), ReadOutcome::Data(b"BODY".to_vec()));
    assert_eq!(
        response.read_step(Some(StreamEvent::Terminated), 16),
        ReadOutcome::Failed(Error::Terminated)
    );
    // Every further call reports the same terminal error, with no event.
    for _ in 0..3 {
        assert_eq!(
            response.read_step(None, 16),
            ReadOutcome::Failed(Error::Terminated)
        );
    }
}

#[test]
fn unsupported_status_is_flagged() {
    let mut response = Response::new();
    let outcome = response.read_step(data(b"51 not found\r\n"), 16);
    assert_eq!(outcome, ReadOutcome::Unsupported(Status::NotFound));
    assert_eq!(response.meta, "not found");
    // The exchange is over; reads report termination.
    assert_eq!(
        response.read_step(None, 16),
        ReadOutcome::Failed(Error::Terminated)
    );
}

#[test]
fn io_failure_mid_body() {
    let mut response = Response::new();
    assert_eq!(response.read_step(data(b"20 ok\r\n"), 16), ReadOutcome::NeedRead);
    assert_eq!(
        response.read_step(Some(StreamEvent::IO), 16),
        ReadOutcome::Failed(Error::IO)
    );
}

#[test]
fn empty_meta_success_header() {
    let mut response = Response::new();
    let outcome = response.read_step(data(b"20\r\nrest"), 16);
    assert_eq!(outcome, ReadOutcome::Data(b"rest".to_vec()));
    assert_eq!(response.meta, "");
}
