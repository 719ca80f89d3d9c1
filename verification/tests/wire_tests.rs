use dns::record::{Record, NS};
use dns::{find_qtype_number, Answer, ErrorCode, Flags, QClass, Query, Request, Response, UnknownQtype, WireError};

#[test]
fn mx_number_is_found_and_bogus_is_not() {
    assert_eq!(find_qtype_number("MX"), Some(15));
    assert_eq!(find_qtype_number("BOGUS"), None);
}

#[test]
fn qtype_numbers_match_the_iana_table() {
    assert_eq!(find_qtype_number("A"), Some(1));
    assert_eq!(find_qtype_number("NS"), Some(2));
    assert_eq!(find_qtype_number("CNAME"), Some(5));
    assert_eq!(find_qtype_number("SOA"), Some(6));
    assert_eq!(find_qtype_number("PTR"), Some(12));
    assert_eq!(find_qtype_number("TXT"), Some(16));
    assert_eq!(find_qtype_number("AAAA"), Some(28));
    assert_eq!(find_qtype_number("SRV"), Some(33));
    assert_eq!(find_qtype_number("CAA"), Some(257));
    assert_eq!(find_qtype_number("mx"), None);
}

#[test]
fn query_flags_ask_for_recursion() {
    let f = Flags::query();
    assert_eq!(f.to_u16(), 0x0100);
    assert!(!f.response);
    assert!(f.recursion_desired);
    assert_eq!(f.opcode, 0);
    assert_eq!(f.error_code, None);
}

#[test]
fn flags_roundtrip_through_the_wire_word() {
    let all_set = Flags {
        response: true,
        opcode: 0,
        authoritative: true,
        truncated: true,
        recursion_desired: true,
        recursion_available: true,
        authentic_data: true,
        checking_disabled: true,
        error_code: None,
    };
    assert_eq!(Flags::from_u16(all_set.to_u16()), all_set);
    let none_set = Flags {
        response: false,
        opcode: 0,
        authoritative: false,
        truncated: false,
        recursion_desired: false,
        recursion_available: false,
        authentic_data: false,
        checking_disabled: false,
        error_code: None,
    };
    assert_eq!(Flags::from_u16(none_set.to_u16()), none_set);
    assert_eq!(Flags::from_u16(Flags::query().to_u16()), Flags::query());
}

#[test]
fn flags_encode_writes_the_rcode() {
    let f = Flags {
        response: true,
        opcode: 0,
        authoritative: false,
        truncated: false,
        recursion_desired: false,
        recursion_available: false,
        authentic_data: false,
        checking_disabled: false,
        error_code: Some(ErrorCode::NXDomain),
    };
    assert_eq!(f.to_u16(), 0x8003);
    assert_eq!(Flags::from_u16(f.to_u16()), f);
    let refused = Flags { error_code: Some(ErrorCode::QueryRefused), ..f };
    assert_eq!(refused.to_u16(), 0x8005);
    assert_eq!(Flags::from_u16(refused.to_u16()), refused);
}

#[test]
fn flags_encode_drops_codes_past_the_field() {
    // BadVersion is code 16: it lives in the EDNS0 extended field, not in
    // the four header bits, so the packed word carries zero there
    let f = Flags {
        response: true,
        opcode: 0,
        authoritative: false,
        truncated: false,
        recursion_desired: false,
        recursion_available: false,
        authentic_data: false,
        checking_disabled: false,
        error_code: Some(ErrorCode::BadVersion),
    };
    assert_eq!(f.to_u16(), 0x8000);
    assert_eq!(Flags::from_u16(f.to_u16()).error_code, None);
}

#[test]
fn decode_of_an_out_of_bounds_pointer_names_the_offset() {
    let mut bytes = vec![0x00, 0x05, 0x81, 0x80, 0x00, 0x01, 0x00, 0x00, 0x00, 0x00, 0x00, 0x00];
    bytes.extend_from_slice(&[0xC0, 0x50]); // a pointer to offset 80, past the end
    assert_eq!(Response::from_bytes(&bytes), Err(WireError::OutOfBounds(0x50)));
}

#[test]
fn decode_of_a_pointer_cycle_reports_the_chain() {
    let mut bytes = vec![0x00, 0x05, 0x81, 0x80, 0x00, 0x01, 0x00, 0x00, 0x00, 0x00, 0x00, 0x00];
    bytes.extend_from_slice(&[0xC0, 14, 0xC0, 12]); // two pointers aiming at each other
    match Response::from_bytes(&bytes) {
        Err(WireError::TooMuchRecursion(chain)) => assert_eq!(chain, vec![14, 12, 14]),
        other => panic!("expected too much recursion, got {:?}", other),
    }
}

#[test]
fn well_formedness_is_testable_before_serialising() {
    let good = Request {
        transaction_id: 1,
        flags: Flags::query(),
        queries: vec![Query { qname: "example.com".to_string(), qtype: 1, qclass: QClass::IN }],
        additional: Some(Request::additional_record()),
    };
    assert!(good.is_wf());
    let empty_label = Request {
        queries: vec![Query { qname: "a..b".to_string(), qtype: 1, qclass: QClass::IN }],
        ..good.clone()
    };
    assert!(!empty_label.is_wf());
    let oversize_label = Request {
        queries: vec![Query { qname: "x".repeat(64), qtype: 1, qclass: QClass::IN }],
        ..good.clone()
    };
    assert!(!oversize_label.is_wf());
    let no_queries = Request { queries: vec![], ..good };
    assert!(no_queries.is_wf());
}

#[test]
fn flags_decode_reads_the_rcode() {
    let f = Flags::from_u16(0x8183);
    assert!(f.response);
    assert!(f.recursion_desired);
    assert!(f.recursion_available);
    assert_eq!(f.error_code, Some(ErrorCode::NXDomain));
}

#[test]
fn error_codes_by_number() {
    assert_eq!(ErrorCode::from_bits(0), None);
    assert_eq!(ErrorCode::from_bits(1), Some(ErrorCode::FormatError));
    assert_eq!(ErrorCode::from_bits(2), Some(ErrorCode::ServerFailure));
    assert_eq!(ErrorCode::from_bits(3), Some(ErrorCode::NXDomain));
    assert_eq!(ErrorCode::from_bits(4), Some(ErrorCode::NotImplemented));
    assert_eq!(ErrorCode::from_bits(5), Some(ErrorCode::QueryRefused));
    assert_eq!(ErrorCode::from_bits(16), Some(ErrorCode::BadVersion));
    assert_eq!(ErrorCode::from_bits(7), Some(ErrorCode::Other(7)));
}

#[test]
fn qclass_numbers() {
    assert_eq!(QClass::from_u16(1), QClass::IN);
    assert_eq!(QClass::from_u16(3), QClass::CH);
    assert_eq!(QClass::from_u16(4), QClass::HS);
    assert_eq!(QClass::from_u16(9), QClass::Other(9));
    assert_eq!(QClass::Other(9).to_u16(), 9);
    assert_eq!(QClass::IN.to_u16(), 1);
}

#[test]
fn serialises_a_plain_query() {
    let request = Request {
        transaction_id: 0x1234,
        flags: Flags::query(),
        queries: vec![Query {
            qname: "example.com".to_string(),
            qtype: 1,
            qclass: QClass::IN,
        }],
        additional: None,
    };
    let bytes = request.to_bytes();
    let expected = vec![
        0x12, 0x34, 0x01, 0x00, 0x00, 0x01, 0x00, 0x00, 0x00, 0x00, 0x00, 0x00, 7, b'e', b'x',
        b'a', b'm', b'p', b'l', b'e', 3, b'c', b'o', b'm', 0, 0x00, 0x01, 0x00, 0x01,
    ];
    assert_eq!(bytes, expected);
}

#[test]
fn request_roundtrips_through_the_wire() {
    let request = Request {
        transaction_id: 0xABCD,
        flags: Flags::query(),
        queries: vec![
            Query { qname: "example.com".to_string(), qtype: 1, qclass: QClass::IN },
            Query { qname: "test.example.net".to_string(), qtype: 28, qclass: QClass::CH },
        ],
        additional: Some(Request::additional_record()),
    };
    let bytes = request.to_bytes();
    let response = Response::from_bytes(&bytes).unwrap();
    assert_eq!(response.transaction_id, request.transaction_id);
    assert_eq!(response.flags, request.flags);
    assert_eq!(response.queries, request.queries);
    assert_eq!(response.answers, vec![]);
    assert_eq!(response.authorities, vec![]);
    assert_eq!(response.additionals.len(), 1);
    match &response.additionals[0] {
        Answer::Pseudo { qname, opt } => {
            assert_eq!(qname.as_str(), "");
            assert_eq!(opt, &Request::additional_record());
        }
        other => panic!("expected the OPT pseudo-record, got {:?}", other),
    }
}

#[test]
fn overstated_answer_count_is_an_io_error() {
    // a header announcing two answers, followed by none at all
    let bytes = vec![0x00, 0x01, 0x81, 0x80, 0x00, 0x00, 0x00, 0x02, 0x00, 0x00, 0x00, 0x00];
    assert_eq!(Response::from_bytes(&bytes), Err(WireError::IO));
}

#[test]
fn truncated_header_is_an_io_error() {
    assert_eq!(Response::from_bytes(&[0x00, 0x01, 0x81]), Err(WireError::IO));
    assert_eq!(Response::from_bytes(&[]), Err(WireError::IO));
}

#[test]
fn decodes_a_response_with_an_unknown_record_type() {
    let mut bytes = vec![0xBE, 0xEF, 0x81, 0x80, 0x00, 0x00, 0x00, 0x01, 0x00, 0x00, 0x00, 0x00];
    bytes.extend_from_slice(&[3, b'w', b'w', b'w', 0]); // the record's name
    bytes.extend_from_slice(&[0x00, 99]); // a type this library cannot decode
    bytes.extend_from_slice(&[0x00, 0x01]); // class IN
    bytes.extend_from_slice(&[0x00, 0x00, 0x0E, 0x10]); // time to live
    bytes.extend_from_slice(&[0x00, 0x03, 0xAA, 0xBB, 0xCC]); // length 3, payload
    let response = Response::from_bytes(&bytes).unwrap();
    assert_eq!(response.answers.len(), 1);
    match &response.answers[0] {
        Answer::Standard { qname, qclass, ttl, record } => {
            assert_eq!(qname.as_str(), "www");
            assert_eq!(*qclass, QClass::IN);
            assert_eq!(*ttl, 3600);
            match record {
                Record::Other { type_number, bytes } => {
                    assert_eq!(*type_number, UnknownQtype::Other(99));
                    assert_eq!(bytes.len(), 3);
                }
                other => panic!("expected an Other record, got {:?}", other),
            }
        }
        other => panic!("expected a standard answer, got {:?}", other),
    }
}

#[test]
fn decodes_a_response_with_a_compressed_name() {
    let mut bytes = vec![0x00, 0x02, 0x81, 0x80, 0x00, 0x01, 0x00, 0x01, 0x00, 0x00, 0x00, 0x00];
    // question: example.com NS IN, whose name starts at offset 12
    bytes.extend_from_slice(&[7, b'e', b'x', b'a', b'm', b'p', b'l', b'e', 3, b'c', b'o', b'm', 0]);
    bytes.extend_from_slice(&[0x00, 0x02, 0x00, 0x01]);
    // answer: a pointer back to the question's name
    bytes.extend_from_slice(&[0xC0, 12]);
    bytes.extend_from_slice(&[0x00, 0x02]); // NS
    bytes.extend_from_slice(&[0x00, 0x01]); // IN
    bytes.extend_from_slice(&[0x00, 0x00, 0x0E, 0x10]);
    // the name server: "ns1." then a pointer to "example.com"
    bytes.extend_from_slice(&[0x00, 0x06, 3, b'n', b's', b'1', 0xC0, 12]);
    let response = Response::from_bytes(&bytes).unwrap();
    assert_eq!(response.queries[0].qname, "example.com");
    match &response.answers[0] {
        Answer::Standard { qname, record, .. } => {
            assert_eq!(qname.as_str(), "example.com");
            assert_eq!(*record, Record::NS(NS { nameserver: "ns1.example.com".to_string() }));
        }
        other => panic!("expected a standard answer, got {:?}", other),
    }
}

#[test]
fn additional_record_advertises_a_512_byte_payload() {
    let opt = Request::additional_record();
    assert_eq!(opt.udp_payload_size, 512);
    assert_eq!(opt.higher_bits, 0);
    assert_eq!(opt.edns0_version, 0);
    assert_eq!(opt.flags, 0);
    assert!(opt.data.is_empty());
}
