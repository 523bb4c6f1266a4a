use gemini::status::Status;

const RECOGNIZED: [(u8, Status); 18] = [
    (10, Status::Input),
    (11, Status::SensitiveInput),
    (20, Status::Success),
    (30, Status::TemporaryRedirect),
    (31, Status::PermanentRedirect),
    (40, Status::TemporaryFailure),
    (41, Status::ServerUnavailable),
    (42, Status::CGIError),
    (43, Status::ProxyError),
    (44, Status::SlowDown),
    (50, Status::PermanentFailure),
    (51, Status::NotFound),
    (52, Status::Gone),
    (53, Status::ProxyRequestRefused),
    (59, Status::BadRequest),
    (60, Status::ClientCertRequired),
    (61, Status::NotAuthorized),
    (62, Status::CertNotValid),
];

#[test]
fn every_byte_up_to_99_decodes_iff_recognized() {
    for value in 0u8..=99 {
        let expected = RECOGNIZED.iter().find(|(code, _)| *code == value);
        match (Status::try_from(value), expected) {
            (Ok(status), Some((_, expected_status))) => assert_eq!(status, *expected_status),
            (Err(returned), None) => assert_eq!(returned, value),
            (Ok(status), None) => panic!("byte {} unexpectedly decoded to {:?}", value, status),
            (Err(_), Some(_)) => panic!("recognized byte {} failed to decode", value),
        }
    }
}

#[test]
fn bytes_past_99_fail() {
    for value in [100u8, 199, 255] {
        assert_eq!(Status::try_from(value), Err(value));
    }
}
