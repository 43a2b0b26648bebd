use dns_client::error::ClientError;
use dns_client::name::encode_name;
use dns_client::name::is_encodable;
use dns_client::record::ClassType;
use dns_client::record::QueryType;
use dns_client::wire::read_name;
use dns_client::wire::read_question;
use dns_client::wire::DNSMessage;

fn example_question() -> Vec<u8> {
    vec![7, b'e', b'x', b'a', b'm', b'p', b'l', b'e', 3, b'c', b'o', b'm', 0, 0, 1, 0, 1]
}

#[test]
fn header_is_twelve_bytes() {
    assert_eq!(DNSMessage::header_size(), 12);
}

#[test]
fn name_is_written_as_labels() {
    assert_eq!(
        encode_name(b"example.com"),
        vec![7, b'e', b'x', b'a', b'm', b'p', b'l', b'e', 3, b'c', b'o', b'm', 0]
    );
    assert_eq!(encode_name(b"localhost"), b"\x09localhost\x00".to_vec());
}

#[test]
fn name_length_is_text_length_plus_two() {
    for host in ["a.b", "example.com", "www.example.co.uk", "x", "a.b.c.d.e.f"] {
        let labels: Vec<&str> = host.split('.').collect();
        let sum: usize = labels.iter().map(|l| l.len()).sum();
        let wire = encode_name(host.as_bytes());
        assert_eq!(wire.len(), sum + labels.len() + 1);
        assert_eq!(wire.len(), host.len() + 2);
    }
}

#[test]
fn empty_labels_are_written_as_they_are() {
    assert_eq!(encode_name(b""), vec![0, 0]);
    assert_eq!(encode_name(b"a."), vec![1, b'a', 0, 0]);
    assert_eq!(encode_name(b"a..b"), vec![1, b'a', 0, 1, b'b', 0]);
    assert_eq!(encode_name(b".a"), vec![0, 1, b'a', 0]);
}

#[test]
fn long_label_length_is_reduced_modulo_256() {
    let host = vec![b'a'; 300];
    let wire = encode_name(&host);
    assert_eq!(wire.len(), 302);
    assert_eq!(wire[0], 44);
    assert_eq!(wire[301], 0);
    assert!(!is_encodable(&host));
    assert!(is_encodable(&vec![b'a'; 255]));
    assert!(!is_encodable(&vec![b'a'; 256]));
    assert!(is_encodable(b"a..b"));
    let mut two = vec![b'a'; 255];
    two.push(b'.');
    two.extend(vec![b'b'; 256]);
    assert!(!is_encodable(&two));
}

#[test]
fn question_for_a_record() {
    let bytes = DNSMessage::encode_host(&"example.com".to_string(), &QueryType::A);
    assert_eq!(bytes, example_question());
}

#[test]
fn question_for_aaaa_record() {
    let bytes = DNSMessage::encode_host(&"example.com".to_string(), &QueryType::AAAA);
    let mut expected = example_question();
    expected[14] = 0x1c;
    assert_eq!(bytes, expected);
}

#[test]
fn question_for_other_records_has_two_type_bytes() {
    let cname = DNSMessage::encode_host(&"a.b".to_string(), &QueryType::CNAME);
    assert_eq!(cname, vec![1, b'a', 1, b'b', 0, 0, 5, 0, 1]);
    let soa = DNSMessage::encode_host(&"a.b".to_string(), &QueryType::SOA);
    assert_eq!(soa, vec![1, b'a', 1, b'b', 0, 0, 6, 0, 1]);
}

#[test]
fn question_of_non_ascii_host_uses_its_utf8_bytes() {
    let bytes = DNSMessage::encode_host(&"é.fr".to_string(), &QueryType::A);
    assert_eq!(bytes, vec![2, 0xc3, 0xa9, 2, b'f', b'r', 0, 0, 1, 0, 1]);
}

#[test]
fn type_and_class_codes() {
    assert_eq!(DNSMessage::encode_query_type(&QueryType::A), vec![0, 1]);
    assert_eq!(DNSMessage::encode_query_type(&QueryType::AAAA), vec![0, 0x1c]);
    assert_eq!(DNSMessage::encode_query_type(&QueryType::CNAME), vec![0, 5]);
    assert_eq!(DNSMessage::encode_query_type(&QueryType::SOA), vec![0, 6]);
    assert_eq!(DNSMessage::encode_class_type(), vec![0, 1]);
    assert_eq!(DNSMessage::decode_query_type(&[0, 1]), Ok(QueryType::A));
    assert_eq!(DNSMessage::decode_query_type(&[0, 0x1c]), Ok(QueryType::AAAA));
    assert_eq!(DNSMessage::decode_query_type(&[0, 5]), Ok(QueryType::CNAME));
    assert_eq!(DNSMessage::decode_query_type(&[0, 6]), Ok(QueryType::SOA));
    assert_eq!(DNSMessage::decode_class_type(&[0, 1]), Ok(ClassType::IN));
}

#[test]
fn unknown_type_is_a_decode_error() {
    assert_eq!(
        DNSMessage::decode_query_type(&[0, 15]),
        Err(ClientError::DecodeError("Failed to decode query type [0, f]".to_string()))
    );
    assert_eq!(
        DNSMessage::decode_query_type(&[1, 1]),
        Err(ClientError::DecodeError("Failed to decode query type [1, 1]".to_string()))
    );
    assert_eq!(
        DNSMessage::decode_query_type(&[0, 1, 0]),
        Err(ClientError::DecodeError("Failed to decode query type [0, 1, 0]".to_string()))
    );
    assert_eq!(
        DNSMessage::decode_query_type(&[]),
        Err(ClientError::DecodeError("Failed to decode query type []".to_string()))
    );
    assert_eq!(
        DNSMessage::decode_query_type(&[255]),
        Err(ClientError::DecodeError("Failed to decode query type [ff]".to_string()))
    );
}

#[test]
fn unknown_class_is_a_decode_error() {
    assert_eq!(
        DNSMessage::decode_class_type(&[0, 3]),
        Err(ClientError::DecodeError("Failed to decode class type [0, 3]".to_string()))
    );
    assert_eq!(
        DNSMessage::decode_class_type(&[0, 255]),
        Err(ClientError::DecodeError("Failed to decode class type [0, ff]".to_string()))
    );
}

#[test]
fn query_has_fixed_header_fields() {
    let m = DNSMessage::with_id(0x1234, example_question());
    assert_eq!(m.id, 0x1234);
    assert_eq!(m.flags, 0x0100);
    assert_eq!(m.questions, 1);
    assert_eq!(m.answers_rrs, 0);
    assert_eq!(m.authority_rrs, 0);
    assert_eq!(m.additional_rrs, 0);
    assert_eq!(m.queries, example_question());
    assert!(m.answers.is_empty());
    assert!(m.is_query());
    assert!(!m.is_answer());
    assert_eq!(m.op_code(), 0);
    assert_eq!(m.rd_code(), Ok(()));
}

#[test]
fn query_with_random_id_differs_only_in_id() {
    let a = DNSMessage::new(example_question());
    let expected = DNSMessage::with_id(a.id, example_question());
    assert_eq!(a, expected);
}

#[test]
fn query_on_the_wire() {
    let m = DNSMessage::with_id(0xabcd, example_question());
    let mut expected = vec![0xab, 0xcd, 1, 0, 0, 1, 0, 0, 0, 0, 0, 0];
    expected.extend(example_question());
    assert_eq!(m.encode(), expected);
    assert_eq!(m.encode().len(), 12 + 17);
}

#[test]
fn round_trip_of_a_query() {
    for (host, query_type) in [
        ("example.com", QueryType::A),
        ("example.com", QueryType::AAAA),
        ("www.rust-lang.org", QueryType::A),
        ("a.b.c.d", QueryType::AAAA),
        ("localhost", QueryType::CNAME),
        ("example.org", QueryType::SOA),
    ] {
        let question = DNSMessage::encode_host(&host.to_string(), &query_type);
        let sent = DNSMessage::with_id(0x0102, question);
        let received = DNSMessage::decode(&sent.encode()).unwrap();
        assert_eq!(received, sent);
        let q = received.question().unwrap();
        assert_eq!(q.host, host.as_bytes());
        assert_eq!(q.query_type, query_type);
        assert_eq!(q.class_type, ClassType::IN);
    }
}

#[test]
fn decode_keeps_bytes_after_the_question() {
    let mut data = DNSMessage::with_id(7, example_question()).encode();
    data.extend([1, 2, 3]);
    let m = DNSMessage::decode(&data).unwrap();
    assert_eq!(m.queries, example_question());
    assert_eq!(m.answers, vec![1, 2, 3]);
    assert_eq!(m.encode(), data);
}

#[test]
fn decode_reads_header_fields_big_endian() {
    let mut data = vec![0x12, 0x34, 0x81, 0x83, 0, 1, 0, 2, 0, 3, 1, 4];
    data.extend(example_question());
    let m = DNSMessage::decode(&data).unwrap();
    assert_eq!(m.id, 0x1234);
    assert_eq!(m.flags, 0x8183);
    assert_eq!(m.questions, 1);
    assert_eq!(m.answers_rrs, 2);
    assert_eq!(m.authority_rrs, 3);
    assert_eq!(m.additional_rrs, 260);
    assert!(m.is_answer());
    assert!(!m.is_query());
    assert_eq!(m.op_code(), 0);
    assert_eq!(m.rd_code(), Err(ClientError::RDCodeNameError));
}

#[test]
fn opcode_is_read_from_the_flags() {
    let mut m = DNSMessage::with_id(1, example_question());
    m.flags = 0x2800;
    assert_eq!(m.op_code(), 5);
    m.flags = 0xf800;
    assert_eq!(m.op_code(), 15);
    assert!(m.is_answer());
}

#[test]
fn short_message_is_a_decode_error() {
    let expected = Err(ClientError::DecodeError(
        "DNS message is shorter than its header".to_string(),
    ));
    assert_eq!(DNSMessage::decode(&[]), expected);
    assert_eq!(DNSMessage::decode(&[0; 11]), expected);
}

#[test]
fn question_count_must_be_one() {
    let mut data = vec![0, 1, 0x81, 0x80, 0, 0, 0, 0, 0, 0, 0, 0];
    data.extend(example_question());
    assert_eq!(
        DNSMessage::decode(&data),
        Err(ClientError::DecodeError(
            "Expected one question in DNS message, found 0".to_string()
        ))
    );
    data[4] = 1;
    data[5] = 2;
    assert_eq!(
        DNSMessage::decode(&data),
        Err(ClientError::DecodeError(
            "Expected one question in DNS message, found 258".to_string()
        ))
    );
}

#[test]
fn truncated_question_is_a_decode_error() {
    let expected = Err(ClientError::DecodeError(
        "DNS message ends inside its question".to_string(),
    ));
    let full = DNSMessage::with_id(7, example_question()).encode();
    for len in 12..full.len() {
        assert_eq!(DNSMessage::decode(&full[..len]), expected);
    }
    assert!(DNSMessage::decode(&full).is_ok());
}

#[test]
fn question_with_unknown_type_or_class_is_a_decode_error() {
    let mut data = DNSMessage::with_id(7, example_question()).encode();
    data[12 + 14] = 15;
    assert_eq!(
        DNSMessage::decode(&data),
        Err(ClientError::DecodeError("Failed to decode query type [0, f]".to_string()))
    );
    data[12 + 14] = 1;
    data[12 + 16] = 4;
    assert_eq!(
        DNSMessage::decode(&data),
        Err(ClientError::DecodeError("Failed to decode class type [0, 4]".to_string()))
    );
}

#[test]
fn root_name_is_the_empty_host() {
    assert_eq!(read_name(&[0], 0), Some((vec![], 1)));
    assert_eq!(read_name(&[9, 0], 1), Some((vec![], 2)));
    assert_eq!(read_name(&[], 0), None);
    assert_eq!(read_name(&[1], 0), None);
    assert_eq!(read_name(&[1, b'a'], 0), None);
    assert_eq!(read_name(&[1, b'a', 0], 0), Some((vec![b'a'], 3)));
    assert_eq!(read_name(&[1, b'a', 0], 5), None);
}

#[test]
fn question_is_read_where_it_starts() {
    let mut bytes = vec![9, 9];
    bytes.extend(example_question());
    bytes.push(9);
    let (q, end) = read_question(&bytes, 2).unwrap();
    assert_eq!(q.host, b"example.com");
    assert_eq!(q.query_type, QueryType::A);
    assert_eq!(q.class_type, ClassType::IN);
    assert_eq!(end, 19);
}

#[test]
fn question_section_must_be_one_question() {
    let mut m = DNSMessage::with_id(1, example_question());
    assert!(m.question().is_ok());
    m.queries.push(0);
    assert_eq!(
        m.question(),
        Err(ClientError::DecodeError("DNS message ends inside its question".to_string()))
    );
    m.queries = vec![3, b'a'];
    assert_eq!(
        m.question(),
        Err(ClientError::DecodeError("DNS message ends inside its question".to_string()))
    );
}

#[test]
fn status_codes() {
    let mut m = DNSMessage::with_id(1, example_question());
    let expected = [
        Ok(()),
        Err(ClientError::RDCodeFormatError),
        Err(ClientError::RDCodeServerFailure),
        Err(ClientError::RDCodeNameError),
        Err(ClientError::RDCodeNotImplemented),
        Err(ClientError::RDCodeRefused),
        Ok(()),
        Ok(()),
        Ok(()),
        Ok(()),
        Ok(()),
        Ok(()),
        Ok(()),
        Ok(()),
        Ok(()),
        Ok(()),
    ];
    for code in 0u16..16 {
        m.flags = 0x8180 | code;
        assert_eq!(m.rd_code(), expected[code as usize]);
        m.flags = code;
        assert_eq!(m.rd_code(), expected[code as usize]);
    }
}

fn labels_written_one_by_one(host: &str) -> Vec<u8> {
    let mut bytes = Vec::new();
    for label in host.split('.') {
        bytes.push(label.len() as u8);
        bytes.extend_from_slice(label.as_bytes());
    }
    bytes.push(0);
    bytes
}

#[test]
fn name_agrees_with_writing_its_labels_one_by_one() {
    let long = "x".repeat(300);
    for host in [
        "example.com",
        "a",
        "",
        ".",
        "..",
        "a.",
        ".a",
        "a..b",
        "www.example.co.uk",
        "xn--bcher-kva.example",
        "bücher.example",
        long.as_str(),
    ] {
        assert_eq!(encode_name(host.as_bytes()), labels_written_one_by_one(host), "{:?}", host);
    }
}

#[test]
fn valid_names_are_read_back() {
    let sixty_three = "a".repeat(63);
    let longest = "b".repeat(255);
    for host in [
        "example.com",
        "a",
        "a.b",
        "www.example.co.uk",
        "bücher.example",
        sixty_three.as_str(),
        longest.as_str(),
        "with space.and-dash_underscore",
    ] {
        let wire = encode_name(host.as_bytes());
        assert_eq!(read_name(&wire, 0), Some((host.as_bytes().to_vec(), wire.len())));
        let mut padded = vec![0xaa, 0xbb];
        padded.extend(&wire);
        padded.extend([1, 2, 3]);
        assert_eq!(read_name(&padded, 2), Some((host.as_bytes().to_vec(), 2 + wire.len())));
    }
}

#[test]
fn names_with_empty_labels_are_not_read_back() {
    let wire = encode_name(b"a..b");
    assert_eq!(read_name(&wire, 0), Some((b"a".to_vec(), 3)));
    let wire = encode_name(b"example.com.");
    assert_eq!(read_name(&wire, 0), Some((b"example.com".to_vec(), 13)));
    assert_eq!(wire.len(), 14);
}
