use libmdnsresponder::header::reply::ReplyOperation;
use libmdnsresponder::header::request::RequestOperation;
use libmdnsresponder::header::{HeaderError, IpcFlags, IpcMessageHeader, Operation};
use libmdnsresponder::operation::resolve::{unpack_string, unpack_txt};
use libmdnsresponder::operation::{addrinfo, browse, resolve};
use libmdnsresponder::operation::{ReplyError, ReplyFlags, ReplyHeader, ServiceFlags};

fn header_bytes(version: u32, data_length: u32, flags: u32, op: u32, ctx: u64, reg: u32) -> Vec<u8> {
    let mut v = Vec::new();
    v.extend_from_slice(&version.to_be_bytes());
    v.extend_from_slice(&data_length.to_be_bytes());
    v.extend_from_slice(&flags.to_be_bytes());
    v.extend_from_slice(&op.to_be_bytes());
    v.extend_from_slice(&ctx.to_be_bytes());
    v.extend_from_slice(&reg.to_be_bytes());
    v
}

fn reply_header(flags: u32, interface: u32, error: u32) -> Vec<u8> {
    let mut v = Vec::new();
    v.extend_from_slice(&flags.to_be_bytes());
    v.extend_from_slice(&interface.to_be_bytes());
    v.extend_from_slice(&error.to_be_bytes());
    v
}

#[test]
fn header_round_trip_on_examples() {
    let headers = [
        IpcMessageHeader::new(1, 18, 4, Operation::Reply(ReplyOperation::Browse), 0x11, 0),
        IpcMessageHeader::new(
            u32::MAX,
            0,
            0x2,
            Operation::Request(RequestOperation::Cancel),
            u64::MAX,
            7,
        ),
        IpcMessageHeader::new(0, 1, 0, Operation::Request(RequestOperation::NoOperation), 0, 0),
        IpcMessageHeader::new(
            1,
            99,
            4,
            Operation::Reply(ReplyOperation::AsyncError),
            0x0102_0304_0506_0708,
            0xfeed,
        ),
    ];
    for h in headers.iter() {
        let bytes = h.to_bytes();
        assert_eq!(bytes.len(), 28);
        assert_eq!(IpcMessageHeader::from(&bytes), Ok(*h));
    }
}

#[test]
fn header_fields_are_big_endian() {
    let h = IpcMessageHeader::new(
        0x0102_0304,
        0x0a0b_0c0d,
        IpcFlags::NoErrSd.to_u32(),
        Operation::Request(RequestOperation::Resolve),
        0x1122_3344_5566_7788,
        0xdead_beef,
    );
    assert_eq!(
        h.to_bytes(),
        vec![
            1, 2, 3, 4, 0x0a, 0x0b, 0x0c, 0x0d, 0, 0, 0, 4, 0, 0, 0, 7, 0x11, 0x22, 0x33, 0x44,
            0x55, 0x66, 0x77, 0x88, 0xde, 0xad, 0xbe, 0xef
        ]
    );
}

#[test]
fn header_short_buffer() {
    let bytes = header_bytes(1, 0, 0, 66, 0, 0);
    assert_eq!(IpcMessageHeader::from(&bytes[..27]), Err(HeaderError::ShortBuffer));
    assert_eq!(IpcMessageHeader::from(&[]), Err(HeaderError::ShortBuffer));
}

#[test]
fn header_unknown_operation() {
    for op in [20u32, 62, 74, 99, u32::MAX] {
        let bytes = header_bytes(1, 0, 0, op, 0, 0);
        assert_eq!(IpcMessageHeader::from(&bytes), Err(HeaderError::UnknownOperation));
    }
}

#[test]
fn header_reads_longer_buffer() {
    let mut bytes = header_bytes(1, 5, 0, 72, 9, 0);
    bytes.extend_from_slice(&[1, 2, 3, 4, 5]);
    let h = IpcMessageHeader::from(&bytes).unwrap();
    assert_eq!(h.operation, Operation::Reply(ReplyOperation::AddressInfo));
    assert_eq!(h.data_length, 5);
    assert_eq!(h.client_context, 9);
}

#[test]
fn operation_codes() {
    assert_eq!(RequestOperation::from_u32(0), Some(RequestOperation::NoOperation));
    assert_eq!(RequestOperation::from_u32(6), Some(RequestOperation::Browse));
    assert_eq!(RequestOperation::from_u32(7), Some(RequestOperation::Resolve));
    assert_eq!(RequestOperation::from_u32(15), Some(RequestOperation::AddressInfo));
    assert_eq!(RequestOperation::from_u32(19), Some(RequestOperation::ConnectionDelegate));
    assert_eq!(RequestOperation::from_u32(63), Some(RequestOperation::Cancel));
    assert_eq!(RequestOperation::from_u32(20), None);
    assert_eq!(RequestOperation::from_u32(64), None);
    for v in (0u32..=19).chain([63]) {
        assert_eq!(RequestOperation::from_u32(v).unwrap().to_u32(), v);
    }
    assert_eq!(ReplyOperation::from_u32(64), Some(ReplyOperation::Enumeration));
    assert_eq!(ReplyOperation::from_u32(66), Some(ReplyOperation::Browse));
    assert_eq!(ReplyOperation::from_u32(73), Some(ReplyOperation::AsyncError));
    assert_eq!(ReplyOperation::from_u32(63), None);
    assert_eq!(ReplyOperation::from_u32(74), None);
    for v in 64u32..=73 {
        assert_eq!(ReplyOperation::from_u32(v).unwrap().to_u32(), v);
    }
    assert_eq!(IpcFlags::NoReply.to_u32(), 0);
    assert_eq!(IpcFlags::TrailingTlvs.to_u32(), 2);
    assert_eq!(IpcFlags::NoErrSd.to_u32(), 4);
}

#[test]
fn reply_flags_decoding() {
    assert_eq!(ReplyFlags::from_u32(0), vec![]);
    assert_eq!(ReplyFlags::from_u32(0x4), vec![]);
    assert_eq!(ReplyFlags::from_u32(0x2), vec![ReplyFlags::Add]);
    assert_eq!(
        ReplyFlags::from_u32(0x0200_0003),
        vec![ReplyFlags::MoreComing, ReplyFlags::Add, ReplyFlags::ThresholdReached]
    );
    assert_eq!(ReplyFlags::from_u32(0xffff_fffd), vec![ReplyFlags::MoreComing, ReplyFlags::ThresholdReached]);
}

#[test]
fn reply_header_decoding() {
    let h = ReplyHeader::from_bytes(&reply_header(0x3, 5, 0xffff_fff0)).unwrap();
    assert_eq!(h.flags, vec![ReplyFlags::MoreComing, ReplyFlags::Add]);
    assert_eq!(h.interface_index, 5);
    assert_eq!(h.error, 0xffff_fff0);
    assert_eq!(ReplyHeader::from_bytes(&[0u8; 11]), Err(ReplyError::Truncated));
}

#[test]
fn service_flag_values() {
    assert_eq!(ServiceFlags::NoFlags.to_u32(), 0);
    assert_eq!(ServiceFlags::AutoTrigger.to_u32(), 1);
    assert_eq!(ServiceFlags::Add.to_u32(), 2);
    assert_eq!(ServiceFlags::Default.to_u32(), 3);
    assert_eq!(ServiceFlags::ForceMulticast.to_u32(), 0x400);
    assert_eq!(ServiceFlags::IncludeP2p.to_u32(), 0x20000);
    assert_eq!(ServiceFlags::IncludeAwdl.to_u32(), 0x100000);
}

#[test]
fn browse_request_bytes() {
    let r = browse::Request::new(ServiceFlags::ForceMulticast, 3, "_http._tcp".to_string(), "local".to_string());
    let mut expected = vec![0, 0, 4, 0, 0, 0, 0, 3];
    expected.extend_from_slice(b"_http._tcp\0local\0");
    assert_eq!(r.to_bytes(), expected);
}

#[test]
fn browse_request_empty_strings() {
    let r = browse::Request::new(ServiceFlags::NoFlags, 0, String::new(), String::new());
    assert_eq!(r.to_bytes(), vec![0, 0, 0, 0, 0, 0, 0, 0, 0, 0]);
}

#[test]
fn resolve_request_bytes() {
    let r = resolve::Request::new(
        ServiceFlags::NoFlags,
        0x0102_0304,
        "My Service".to_string(),
        "_x._tcp".to_string(),
        "local".to_string(),
    );
    let mut expected = vec![0, 0, 0, 0, 1, 2, 3, 4];
    expected.extend_from_slice(b"My Service\0_x._tcp\0local\0");
    assert_eq!(r.to_bytes(), expected);
}

#[test]
fn resolve_request_utf8_name() {
    let r = resolve::Request::new(ServiceFlags::NoFlags, 0, "Café ☕".to_string(), "_t".to_string(), "l".to_string());
    let mut expected = vec![0, 0, 0, 0, 0, 0, 0, 0];
    expected.extend_from_slice("Café ☕".as_bytes());
    expected.extend_from_slice(b"\0_t\0l\0");
    assert_eq!(r.to_bytes(), expected);
}

#[test]
fn addrinfo_request_bytes() {
    let r = addrinfo::Request::new(ServiceFlags::NoFlags, 0, addrinfo::Protocol::Both, "h.local".to_string());
    let mut expected = vec![0, 0, 0, 0, 0, 0, 0, 0, 0, 0, 0, 3];
    expected.extend_from_slice(b"h.local\0");
    assert_eq!(r.to_bytes(), expected);
    assert_eq!(addrinfo::Protocol::IPv4.to_u32(), 1);
    assert_eq!(addrinfo::Protocol::IPv6.to_u32(), 2);
    assert_eq!(addrinfo::Protocol::from(libmdnsresponder::Protocol::IPv6), addrinfo::Protocol::IPv6);
    assert_eq!(addrinfo::Protocol::from(libmdnsresponder::Protocol::IPv4), addrinfo::Protocol::IPv4);
    assert_eq!(addrinfo::Protocol::from(libmdnsresponder::Protocol::Both), addrinfo::Protocol::Both);
}

#[test]
fn browse_reply_decoding() {
    let mut body = reply_header(0x2, 4, 0);
    body.extend_from_slice(b"_x\0_y\0z\0");
    let r = browse::Reply::from_bytes(&body).unwrap();
    assert_eq!(r.service_name, "_x");
    assert_eq!(r.service_type, "_y");
    assert_eq!(r.service_domain, "z");
    assert_eq!(r.header.interface_index, 4);
    assert!(r.is_add());

    let mut body = reply_header(0x1, 0, 0);
    body.extend_from_slice(b"a\0b\0c");
    let r = browse::Reply::from_bytes(&body).unwrap();
    assert_eq!(r.service_domain, "c");
    assert!(!r.is_add());
}

#[test]
fn browse_reply_truncated() {
    assert_eq!(browse::Reply::from_bytes(&reply_header(2, 0, 0)), Err(ReplyError::Truncated));
    let mut body = reply_header(2, 0, 0);
    body.extend_from_slice(b"_x\0_y\0");
    assert_eq!(browse::Reply::from_bytes(&body), Err(ReplyError::Truncated));
    let mut body = reply_header(2, 0, 0);
    body.extend_from_slice(b"_x");
    assert_eq!(browse::Reply::from_bytes(&body), Err(ReplyError::Truncated));
}

#[test]
fn browse_reply_invalid_utf8_is_replaced() {
    let mut body = reply_header(2, 0, 0);
    body.extend_from_slice(&[b'a', 0xff, b'b', 0]);
    body.extend_from_slice(b"t\0d\0");
    let r = browse::Reply::from_bytes(&body).unwrap();
    assert_eq!(r.service_name, "a\u{FFFD}b");
    assert_eq!(r.service_type, "t");
    assert_eq!(r.service_domain, "d");
}

#[test]
fn txt_item_escaping() {
    assert_eq!(unpack_string(b"\x06key=v1", 0), Ok(("key=v1".to_string(), 7)));
    assert_eq!(unpack_string(&[4, b'a', b'"', b'\\', b'b'], 0), Ok(("a\\\"\\\\b".to_string(), 5)));
    assert_eq!(unpack_string(&[3, 0x00, 0x1f, 0x7f], 0), Ok(("\\000\\031\\127".to_string(), 4)));
    assert_eq!(unpack_string(&[2, 0xff, b'~'], 0), Ok(("\\255~".to_string(), 3)));
    assert_eq!(unpack_string(&[9, 0, 7], 1), Ok(("".to_string(), 2)));
    assert_eq!(unpack_string(&[], 0), Err(ReplyError::Truncated));
    assert_eq!(unpack_string(&[5, b'a'], 0), Err(ReplyError::Truncated));
}

#[test]
fn txt_record_unpacking() {
    assert_eq!(unpack_txt(&[], 0), Ok((vec![], 0)));
    assert_eq!(
        unpack_txt(b"\x03a=1\x03b=2", 0),
        Ok((vec!["a=1".to_string(), "b=2".to_string()], 8))
    );
    assert_eq!(unpack_txt(b"\x03a=1\x09b=2", 0), Ok((vec!["a=1".to_string()], 4)));
    assert_eq!(unpack_txt(b"\x09a=1", 0), Err(ReplyError::Truncated));
    assert_eq!(unpack_txt(b"\x00\x00", 0), Ok((vec!["".to_string(), "".to_string()], 2)));
    assert_eq!(unpack_txt(b"\x01a", 5), Ok((vec![], 5)));
}

fn resolve_body(txt: &[u8], txt_len: u16) -> Vec<u8> {
    let mut body = reply_header(0x2, 0, 0);
    body.extend_from_slice(b"svc._x._y.local.\0host.local.\0");
    body.extend_from_slice(&0x1F90u16.to_be_bytes());
    body.extend_from_slice(&txt_len.to_be_bytes());
    body.extend_from_slice(txt);
    body
}

#[test]
fn resolve_reply_decoding() {
    let r = resolve::Reply::from_bytes(&resolve_body(b"\x06key=v1", 7)).unwrap();
    assert_eq!(r.full_name, "svc._x._y.local.");
    assert_eq!(r.host_target, "host.local.");
    assert_eq!(r.port, 8080);
    assert_eq!(r.txt_data, vec!["key=v1".to_string()]);

    let r = resolve::Reply::from_bytes(&resolve_body(b"", 0)).unwrap();
    assert_eq!(r.txt_data, Vec::<String>::new());
}

#[test]
fn resolve_reply_errors() {
    assert_eq!(resolve::Reply::from_bytes(&resolve_body(b"\x06key=v1", 8)), Err(ReplyError::Truncated));
    assert_eq!(resolve::Reply::from_bytes(&resolve_body(b"\x09key=v1", 7)), Err(ReplyError::Truncated));
    let mut body = reply_header(0, 0, 0);
    body.extend_from_slice(b"a\0b\0\x00\x50\x00");
    assert_eq!(resolve::Reply::from_bytes(&body), Err(ReplyError::Truncated));
    assert_eq!(resolve::Reply::from_bytes(&[0u8; 8]), Err(ReplyError::Truncated));
}

fn addrinfo_body(rdata: &[u8]) -> Vec<u8> {
    let mut body = reply_header(0x2, 1, 0);
    body.extend_from_slice(b"h.local.\0");
    body.extend_from_slice(&1u16.to_be_bytes());
    body.extend_from_slice(&1u16.to_be_bytes());
    body.extend_from_slice(&(rdata.len() as u16).to_be_bytes());
    body.extend_from_slice(rdata);
    body.extend_from_slice(&120u32.to_be_bytes());
    body
}

#[test]
fn addrinfo_reply_decoding() {
    let r = addrinfo::Reply::from_bytes(&addrinfo_body(&[192, 168, 1, 7])).unwrap();
    assert_eq!(r.name, "h.local.");
    assert_eq!(r.rrtype, 1);
    assert_eq!(r.rrclass, 1);
    assert_eq!(r.rdlen, 4);
    assert_eq!(r.rdata, vec![192, 168, 1, 7]);
    assert_eq!(r.ttl, 120);
    assert_eq!(r.header.interface_index, 1);
}

#[test]
fn addrinfo_reply_truncated() {
    let body = addrinfo_body(&[192, 168, 1, 7]);
    assert_eq!(addrinfo::Reply::from_bytes(&body[..body.len() - 1]), Err(ReplyError::Truncated));
    assert_eq!(addrinfo::Reply::from_bytes(&body[..11]), Err(ReplyError::Truncated));
    assert_eq!(addrinfo::Reply::from_bytes(&body[..12]), Err(ReplyError::Truncated));
}
