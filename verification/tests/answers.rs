use dns_client::client::read_response;
use dns_client::error::ClientError;
use dns_client::record::ClassType;
use dns_client::record::QueryAnswer;
use dns_client::record::QueryType;
use dns_client::wire::DNSMessage;

fn question() -> Vec<u8> {
    DNSMessage::encode_host(&"example.com".to_string(), &QueryType::A)
}

fn response(id: u16, flags: u16, answer_count: u16, records: &[u8]) -> Vec<u8> {
    let mut data = vec![
        (id >> 8) as u8,
        id as u8,
        (flags >> 8) as u8,
        flags as u8,
        0,
        1,
        (answer_count >> 8) as u8,
        answer_count as u8,
        0,
        0,
        0,
        0,
    ];
    data.extend(question());
    data.extend_from_slice(records);
    data
}

fn record(kind: u8, rdata: &[u8]) -> Vec<u8> {
    let mut r = vec![0xc0, 0x0c, 0, kind, 0, 1, 0, 0, 0x0e, 0x10];
    r.push((rdata.len() >> 8) as u8);
    r.push(rdata.len() as u8);
    r.extend_from_slice(rdata);
    r
}

fn answer(address: &str, query_type: QueryType) -> QueryAnswer {
    QueryAnswer {
        host: "example.com".to_string(),
        address: address.to_string(),
        query_type,
        class_type: ClassType::IN,
    }
}

const V6: [u8; 16] = [0x20, 0x01, 0x0d, 0xb8, 0, 0, 0, 0, 0, 0, 0, 0, 0, 0, 0, 1];

#[test]
fn one_a_record_yields_one_address() {
    let data = response(0x1111, 0x8180, 1, &record(1, &[93, 184, 216, 34]));
    let answers = read_response(0x1111, &"example.com".to_string(), &data).unwrap();
    assert_eq!(answers, vec![answer("93.184.216.34", QueryType::A)]);
    assert_eq!(answers[0].address, "93.184.216.34");
}

#[test]
fn one_aaaa_record_yields_the_compressed_address() {
    let data = response(0x2222, 0x8180, 1, &record(0x1c, &V6));
    let answers = read_response(0x2222, &"example.com".to_string(), &data).unwrap();
    assert_eq!(answers, vec![answer("2001:db8::1", QueryType::AAAA)]);
}

#[test]
fn no_record_yields_no_answer() {
    let data = response(5, 0x8180, 0, &[]);
    assert_eq!(read_response(5, &"example.com".to_string(), &data), Ok(vec![]));
}

#[test]
fn fewer_than_twelve_bytes_after_the_question_are_ignored() {
    let data = response(5, 0x8180, 0, &[1, 2, 3, 4, 5, 6, 7, 8, 9, 10, 11]);
    assert_eq!(read_response(5, &"example.com".to_string(), &data), Ok(vec![]));
}

#[test]
fn other_transaction_id_is_refused() {
    let data = response(0x0102, 0x8180, 1, &record(1, &[93, 184, 216, 34]));
    assert_eq!(
        read_response(0x0304, &"example.com".to_string(), &data),
        Err(ClientError::DecodeIdError(
            "Sent Query ID: [3, 4], but received Response ID: [1, 2]".to_string()
        ))
    );
}

#[test]
fn other_transaction_id_is_refused_whatever_the_status() {
    for flags in [0x8180u16, 0x8183, 0x8182, 0x0100] {
        let data = response(0xffff, flags, 0, &[]);
        assert_eq!(
            read_response(0, &"example.com".to_string(), &data),
            Err(ClientError::DecodeIdError(
                "Sent Query ID: [0, 0], but received Response ID: [255, 255]".to_string()
            ))
        );
    }
}

#[test]
fn name_error_is_reported_even_with_records() {
    let data = response(9, 0x8183, 1, &record(1, &[93, 184, 216, 34]));
    assert_eq!(
        read_response(9, &"example.com".to_string(), &data),
        Err(ClientError::RDCodeNameError)
    );
    let data = response(9, 0x8183, 0, &[]);
    assert_eq!(
        read_response(9, &"example.com".to_string(), &data),
        Err(ClientError::RDCodeNameError)
    );
}

#[test]
fn name_error_is_reported_before_records_are_read() {
    let data = response(9, 0x8183, 1, &[0xff; 40]);
    assert_eq!(
        read_response(9, &"example.com".to_string(), &data),
        Err(ClientError::RDCodeNameError)
    );
}

#[test]
fn each_failure_status_is_its_own_error() {
    let host = "example.com".to_string();
    let records = record(1, &[1, 2, 3, 4]);
    assert_eq!(
        read_response(1, &host, &response(1, 0x8181, 1, &records)),
        Err(ClientError::RDCodeFormatError)
    );
    assert_eq!(
        read_response(1, &host, &response(1, 0x8182, 1, &records)),
        Err(ClientError::RDCodeServerFailure)
    );
    assert_eq!(
        read_response(1, &host, &response(1, 0x8184, 1, &records)),
        Err(ClientError::RDCodeNotImplemented)
    );
    assert_eq!(
        read_response(1, &host, &response(1, 0x8185, 1, &records)),
        Err(ClientError::RDCodeRefused)
    );
}

#[test]
fn unknown_status_counts_as_success() {
    let host = "example.com".to_string();
    let records = record(1, &[1, 2, 3, 4]);
    for code in 6u16..16 {
        assert_eq!(
            read_response(1, &host, &response(1, 0x8180 | code, 1, &records)),
            Ok(vec![answer("1.2.3.4", QueryType::A)])
        );
    }
}

#[test]
fn undecodable_response_fails_before_the_id_is_compared() {
    assert_eq!(
        read_response(1, &"example.com".to_string(), &[0, 2, 0x81, 0x83]),
        Err(ClientError::DecodeError(
            "DNS message is shorter than its header".to_string()
        ))
    );
}

#[test]
fn several_records_yield_their_addresses_in_order() {
    let mut records = record(5, b"\x03www\xc0\x0c");
    records.extend(record(1, &[10, 0, 0, 1]));
    records.extend(record(0x1c, &V6));
    records.extend(record(6, &[0; 30]));
    records.extend(record(1, &[192, 168, 1, 255]));
    let data = response(3, 0x8180, 5, &records);
    assert_eq!(
        read_response(3, &"example.com".to_string(), &data),
        Ok(vec![
            answer("10.0.0.1", QueryType::A),
            answer("2001:db8::1", QueryType::AAAA),
            answer("192.168.1.255", QueryType::A),
        ])
    );
}

#[test]
fn answers_carry_the_host_that_was_asked_for() {
    let data = response(3, 0x8180, 1, &record(1, &[10, 0, 0, 1]));
    let answers = read_response(3, &"other.example".to_string(), &data).unwrap();
    assert_eq!(answers[0].host, "other.example");
}

#[test]
fn record_without_pointer_is_a_decode_error() {
    let mut r = record(1, &[10, 0, 0, 1]);
    r[0] = 1;
    let data = response(3, 0x8180, 1, &r);
    assert_eq!(
        read_response(3, &"example.com".to_string(), &data),
        Err(ClientError::DecodeError(
            "Expected 0xc0 on decoded response, found 1 instead".to_string()
        ))
    );
    r[0] = 0xc1;
    let data = response(3, 0x8180, 1, &r);
    assert_eq!(
        read_response(3, &"example.com".to_string(), &data),
        Err(ClientError::DecodeError(
            "Expected 0xc0 on decoded response, found c1 instead".to_string()
        ))
    );
}

#[test]
fn record_of_unknown_type_is_a_decode_error() {
    let data = response(3, 0x8180, 1, &record(15, &[0, 10, 0xc0, 0x0c]));
    assert_eq!(
        read_response(3, &"example.com".to_string(), &data),
        Err(ClientError::DecodeError("Failed to decode query type [0, f]".to_string()))
    );
}

#[test]
fn record_of_unknown_class_is_a_decode_error() {
    let mut r = record(1, &[10, 0, 0, 1]);
    r[5] = 3;
    let data = response(3, 0x8180, 1, &r);
    assert_eq!(
        read_response(3, &"example.com".to_string(), &data),
        Err(ClientError::DecodeError("Failed to decode class type [0, 3]".to_string()))
    );
}

#[test]
fn failure_of_a_later_record_discards_earlier_answers() {
    let mut records = record(1, &[10, 0, 0, 1]);
    records.extend(record(15, &[0; 8]));
    let data = response(3, 0x8180, 2, &records);
    assert_eq!(
        read_response(3, &"example.com".to_string(), &data),
        Err(ClientError::DecodeError("Failed to decode query type [0, f]".to_string()))
    );
}

#[test]
fn address_cut_short_is_a_decode_error() {
    let expected = Err(ClientError::DecodeError(
        "DNS message ends inside an address record".to_string(),
    ));
    let full = record(1, &[10, 0, 0, 1]);
    for len in 12..16 {
        let data = response(3, 0x8180, 1, &full[..len]);
        assert_eq!(read_response(3, &"example.com".to_string(), &data), expected);
    }
    let full = record(0x1c, &V6);
    for len in 12..28 {
        let data = response(3, 0x8180, 1, &full[..len]);
        assert_eq!(read_response(3, &"example.com".to_string(), &data), expected);
    }
}

#[test]
fn record_with_exactly_its_prefix_is_read() {
    let data = response(3, 0x8180, 1, &record(5, &[]));
    assert_eq!(read_response(3, &"example.com".to_string(), &data), Ok(vec![]));
}

#[test]
fn address_is_read_after_the_prefix_whatever_the_length_says() {
    let mut r = record(1, &[10, 0, 0, 1]);
    r[11] = 0;
    r.extend(record(1, &[10, 0, 0, 2]));
    // The first record announces no data, so the second is looked for at
    // once after the prefix of the first, where it is not.
    let data = response(3, 0x8180, 2, &r);
    assert_eq!(
        read_response(3, &"example.com".to_string(), &data),
        Err(ClientError::DecodeError(
            "Expected 0xc0 on decoded response, found a instead".to_string()
        ))
    );
}

#[test]
fn length_beyond_the_end_ends_the_walk() {
    let mut r = record(1, &[10, 0, 0, 1]);
    r[10] = 0xff;
    r[11] = 0xff;
    let data = response(3, 0x8180, 1, &r);
    assert_eq!(
        read_response(3, &"example.com".to_string(), &data),
        Ok(vec![answer("10.0.0.1", QueryType::A)])
    );
}

#[test]
fn walk_of_a_message_starts_after_its_question() {
    let data = response(3, 0x8180, 1, &record(1, &[8, 8, 4, 4]));
    let m = DNSMessage::decode(&data).unwrap();
    assert_eq!(m.answers, record(1, &[8, 8, 4, 4]));
    assert_eq!(
        m.decode_query_answers(&"example.com".to_string()),
        Ok(vec![answer("8.8.4.4", QueryType::A)])
    );
}
