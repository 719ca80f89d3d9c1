use dns::cursor::Cursor;
use dns::record::{Ipv4Address, Record, A, AAAA, CAA, CNAME, MX, OPT, PTR, SOA, SRV, TXT};
use dns::WireError;

#[test]
fn parses() {
    let buf = &[127, 0, 0, 1];

    assert_eq!(
        A::read(4, &mut Cursor::new(buf)).unwrap(),
        A { address: Ipv4Address::new(127, 0, 0, 1) }
    );
}

#[test]
fn too_short() {
    let buf = &[127, 0, 1];

    assert_eq!(
        A::read(3, &mut Cursor::new(buf)),
        Err(WireError::WrongLength { expected: 4, got: 3 })
    );
}

#[test]
fn too_long() {
    let buf = &[127, 0, 0, 0, 1];

    assert_eq!(
        A::read(5, &mut Cursor::new(buf)),
        Err(WireError::WrongLength { expected: 4, got: 5 })
    );
}

#[test]
fn empty() {
    assert_eq!(
        A::read(0, &mut Cursor::new(&[])),
        Err(WireError::WrongLength { expected: 4, got: 0 })
    );
}

#[test]
fn a_underrun_is_io() {
    let buf = &[127, 0];
    assert_eq!(A::read(4, &mut Cursor::new(buf)), Err(WireError::IO));
}

#[test]
fn aaaa_parses() {
    let buf: Vec<u8> = (1..=16).collect();
    let rec = AAAA::read(16, &mut Cursor::new(&buf)).unwrap();
    assert_eq!(rec.address.octets, buf);
}

#[test]
fn aaaa_wrong_length() {
    let buf = &[1, 2, 3, 4];
    assert_eq!(
        AAAA::read(4, &mut Cursor::new(buf)),
        Err(WireError::WrongLength { expected: 16, got: 4 })
    );
}

#[test]
fn mx_parses() {
    // preference 10, exchange "mx1.example"
    let buf = &[0, 10, 3, b'm', b'x', b'1', 7, b'e', b'x', b'a', b'm', b'p', b'l', b'e', 0];
    let rec = MX::read(15, &mut Cursor::new(buf)).unwrap();
    assert_eq!(rec.preference, 10);
    assert_eq!(rec.exchange, "mx1.example");
}

#[test]
fn caa_parses() {
    let mut buf = vec![0x80, 5];
    buf.extend_from_slice(b"issue");
    buf.extend_from_slice(b"ca.example.net");
    let len = buf.len() as u16;
    let rec = CAA::read(len, &mut Cursor::new(&buf)).unwrap();
    assert!(rec.critical);
    assert_eq!(rec.tag, b"issue".to_vec());
    assert_eq!(rec.value, b"ca.example.net".to_vec());
}

#[test]
fn caa_too_small_for_tag() {
    // declared length 4, but the tag alone needs 5 bytes after the two
    // fixed ones
    let buf = &[0x00, 5, b'i', b's', b's', b'u', b'e'];
    assert_eq!(
        CAA::read(4, &mut Cursor::new(buf)),
        Err(WireError::WrongLength { expected: 7, got: 4 })
    );
}

#[test]
fn soa_parses() {
    let mut buf = vec![2, b'n', b's', 0];
    buf.extend_from_slice(&[5, b'a', b'd', b'm', b'i', b'n', 0]);
    buf.extend_from_slice(&[0, 0, 0, 1]); // serial
    buf.extend_from_slice(&[0, 0, 0, 2]); // refresh
    buf.extend_from_slice(&[0, 0, 0, 3]); // retry
    buf.extend_from_slice(&[0, 0, 0, 4]); // expire
    buf.extend_from_slice(&[0, 0, 1, 0]); // minimum ttl
    let len = buf.len() as u16;
    let rec = SOA::read(len, &mut Cursor::new(&buf)).unwrap();
    assert_eq!(rec.mname, "ns");
    assert_eq!(rec.rname, "admin");
    assert_eq!(rec.serial, 1);
    assert_eq!(rec.refresh_interval, 2);
    assert_eq!(rec.retry_interval, 3);
    assert_eq!(rec.expire_limit, 4);
    assert_eq!(rec.minimum_ttl, 256);
}

#[test]
fn srv_parses() {
    let buf = &[0, 1, 0, 2, 0x1F, 0x90, 4, b'h', b'o', b's', b't', 0];
    let rec = SRV::read(12, &mut Cursor::new(buf)).unwrap();
    assert_eq!(rec.priority, 1);
    assert_eq!(rec.weight, 2);
    assert_eq!(rec.port, 8080);
    assert_eq!(rec.target, "host");
}

#[test]
fn cname_parses() {
    let buf = &[5, b'a', b'l', b'i', b'a', b's', 3, b'n', b'e', b't', 0];
    let rec = CNAME::read(11, &mut dns::cursor::Cursor::new(buf)).unwrap();
    assert_eq!(rec.domain, "alias.net");
}

#[test]
fn ptr_parses() {
    let buf = &[4, b'h', b'o', b's', b't', 0];
    let rec = PTR::read(6, &mut dns::cursor::Cursor::new(buf)).unwrap();
    assert_eq!(rec.cname, "host");
}

#[test]
fn unknown_qtype_number_roundtrips() {
    let unknown = dns::UnknownQtype::from_u16(4242);
    assert_eq!(unknown, dns::UnknownQtype::Other(4242));
    assert_eq!(unknown.to_u16(), 4242);
}

#[test]
fn txt_keeps_bytes() {
    let buf = b"anything at all";
    let rec = TXT::read(buf.len() as u16, &mut Cursor::new(buf)).unwrap();
    assert_eq!(rec.message, buf.to_vec());
}

#[test]
fn opt_roundtrips() {
    let opt = OPT {
        udp_payload_size: 512,
        higher_bits: 0,
        edns0_version: 0,
        flags: 0,
        data: Vec::new(),
    };
    let bytes = opt.to_bytes();
    assert_eq!(bytes, vec![0x02, 0x00, 0, 0, 0x00, 0x00, 0x00, 0x00]);
    let back = OPT::read(&mut Cursor::new(&bytes)).unwrap();
    assert_eq!(back, opt);
}

#[test]
fn unknown_type_keeps_payload() {
    let buf = &[0xAA, 0xBB, 0xCC];
    let rec = Record::from_bytes(99, 3, &mut Cursor::new(buf)).unwrap();
    match rec {
        Record::Other { type_number, bytes } => {
            assert_eq!(type_number, dns::UnknownQtype::Other(99));
            assert_eq!(bytes.len(), 3);
            assert_eq!(bytes, vec![0xAA, 0xBB, 0xCC]);
        }
        other => panic!("expected an Other record, got {:?}", other),
    }
}

#[test]
fn dispatch_picks_the_matching_decoder() {
    let buf = &[127, 0, 0, 1];
    let rec = Record::from_bytes(1, 4, &mut Cursor::new(buf)).unwrap();
    assert_eq!(rec, Record::A(A { address: Ipv4Address::new(127, 0, 0, 1) }));
}

#[test]
fn wire_trait_reads_like_the_inherent_decoder() {
    let buf = &[10, 0, 0, 1];
    let through_trait = <A as dns::Wire>::read(4, &mut Cursor::new(buf)).unwrap();
    assert_eq!(through_trait, A { address: Ipv4Address::new(10, 0, 0, 1) });
}
