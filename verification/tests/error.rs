use dns_client::client::ClientError;
use dns_client::error::class_error;
use dns_client::error::id_error;
use dns_client::error::long_label_error;
use dns_client::error::pointer_error;
use dns_client::error::question_count_error;
use dns_client::error::short_header_error;
use dns_client::error::truncated_question_error;
use dns_client::error::truncated_record_error;
use dns_client::error::type_error;

#[test]
fn failures_are_named_by_their_kind() {
    let m = || "details".to_string();
    assert_eq!(ClientError::ParseError(m()).description(), "ParseError");
    assert_eq!(ClientError::BindError(m()).description(), "BindError");
    assert_eq!(ClientError::ConnectError(m()).description(), "ConnectError");
    assert_eq!(ClientError::SendError(m()).description(), "SendError");
    assert_eq!(ClientError::RecvError(m()).description(), "RecvError");
    assert_eq!(ClientError::EncodeError(m()).description(), "EncodeError");
    assert_eq!(ClientError::DecodeError(m()).description(), "DecodeError");
    assert_eq!(ClientError::DecodeIdError(m()).description(), "DecodeIdError");
}

#[test]
fn status_failures_are_described() {
    assert_eq!(
        ClientError::RDCodeFormatError.description(),
        "DNS message RDCode format error"
    );
    assert_eq!(
        ClientError::RDCodeServerFailure.description(),
        "DNS message RDCode server failure error"
    );
    assert_eq!(ClientError::RDCodeNameError.description(), "DNS message RDCode name error");
    assert_eq!(
        ClientError::RDCodeNotImplemented.description(),
        "DNS message RDCode not implemented server error"
    );
    assert_eq!(
        ClientError::RDCodeRefused.description(),
        "DNS message RDCode server refused error"
    );
}

#[test]
fn decode_failures_carry_what_was_found() {
    assert_eq!(
        type_error(&[0, 0x21]),
        ClientError::DecodeError("Failed to decode query type [0, 21]".to_string())
    );
    assert_eq!(
        class_error(&[0xff, 0x0a]),
        ClientError::DecodeError("Failed to decode class type [ff, a]".to_string())
    );
    assert_eq!(
        pointer_error(0),
        ClientError::DecodeError("Expected 0xc0 on decoded response, found 0 instead".to_string())
    );
    assert_eq!(
        pointer_error(0xbf),
        ClientError::DecodeError(
            "Expected 0xc0 on decoded response, found bf instead".to_string()
        )
    );
    assert_eq!(
        question_count_error(65535),
        ClientError::DecodeError(
            "Expected one question in DNS message, found 65535".to_string()
        )
    );
}

#[test]
fn id_failure_carries_both_ids_as_bytes() {
    assert_eq!(
        id_error(0x0102, 0xfffe),
        ClientError::DecodeIdError(
            "Sent Query ID: [1, 2], but received Response ID: [255, 254]".to_string()
        )
    );
    assert_eq!(
        id_error(0, 256),
        ClientError::DecodeIdError(
            "Sent Query ID: [0, 0], but received Response ID: [1, 0]".to_string()
        )
    );
}

#[test]
fn fixed_failure_messages() {
    assert_eq!(
        short_header_error(),
        ClientError::DecodeError("DNS message is shorter than its header".to_string())
    );
    assert_eq!(
        truncated_question_error(),
        ClientError::DecodeError("DNS message ends inside its question".to_string())
    );
    assert_eq!(
        truncated_record_error(),
        ClientError::DecodeError("DNS message ends inside an address record".to_string())
    );
    assert_eq!(
        long_label_error(),
        ClientError::EncodeError("Host name has a label of more than 255 bytes".to_string())
    );
}
