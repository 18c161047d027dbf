use libmdnsresponder::assembler::{parse_frame, Assembler, ReadOutcome, ReaderAction};
use libmdnsresponder::{
    AddressInfo, InternalError, IpAddress, MDnsResponderEvent, Resolved, Service,
};

fn frame(op: u32, context: u64, body: &[u8]) -> Vec<u8> {
    let mut v = Vec::new();
    v.extend_from_slice(&1u32.to_be_bytes());
    v.extend_from_slice(&(body.len() as u32).to_be_bytes());
    v.extend_from_slice(&0u32.to_be_bytes());
    v.extend_from_slice(&op.to_be_bytes());
    v.extend_from_slice(&context.to_be_bytes());
    v.extend_from_slice(&0u32.to_be_bytes());
    v.extend_from_slice(body);
    v
}

fn reply_header(flags: u32) -> Vec<u8> {
    let mut v = Vec::new();
    v.extend_from_slice(&flags.to_be_bytes());
    v.extend_from_slice(&0u32.to_be_bytes());
    v.extend_from_slice(&0u32.to_be_bytes());
    v
}

fn browse_frame(flags: u32) -> Vec<u8> {
    let mut body = reply_header(flags);
    body.extend_from_slice(b"_x\0_y\0z\0");
    frame(66, 0x11, &body)
}

fn service() -> Service {
    Service { name: "_x".to_string(), service_type: "_y".to_string(), domain: "z".to_string() }
}

fn resolve_frame() -> Vec<u8> {
    let mut body = reply_header(0x2);
    body.extend_from_slice(b"svc._x._y.local.\0host.local.\0");
    body.extend_from_slice(&[0x1F, 0x90, 0x00, 0x07]);
    body.extend_from_slice(b"\x06key=v1");
    frame(67, 0x22, &body)
}

fn resolved() -> Resolved {
    Resolved {
        full_name: "svc._x._y.local.".to_string(),
        host_target: "host.local.".to_string(),
        port: 8080,
        txt_data: vec!["key=v1".to_string()],
    }
}

fn address_frame(rdata: &[u8]) -> Vec<u8> {
    let mut body = reply_header(0x2);
    body.extend_from_slice(b"h.local.\0");
    body.extend_from_slice(&[0, 1, 0, 1]);
    body.extend_from_slice(&(rdata.len() as u16).to_be_bytes());
    body.extend_from_slice(rdata);
    body.extend_from_slice(&120u32.to_be_bytes());
    frame(72, 0x33, &body)
}

#[test]
fn browse_add_frame() {
    let mut a = Assembler::new();
    let f = browse_frame(0x2);
    assert_eq!(f.len(), 48);
    assert_eq!(a.feed(&f), vec![MDnsResponderEvent::ServiceAdded(service())]);
    assert_eq!(a.pending(), 0);
}

#[test]
fn browse_remove_frame() {
    let mut a = Assembler::new();
    assert_eq!(a.feed(&browse_frame(0x0)), vec![MDnsResponderEvent::ServiceRemoved(service())]);
    assert_eq!(a.pending(), 0);
}

#[test]
fn split_frame_at_every_point() {
    let f = browse_frame(0x2);
    for split in 0..=f.len() {
        let mut a = Assembler::new();
        let mut events = a.feed(&f[..split]);
        events.extend(a.feed(&f[split..]));
        assert_eq!(events, vec![MDnsResponderEvent::ServiceAdded(service())], "split at {}", split);
        assert_eq!(a.pending(), 0);
    }
}

#[test]
fn resolve_with_txt_frame() {
    let mut a = Assembler::new();
    assert_eq!(a.feed(&resolve_frame()), vec![MDnsResponderEvent::ServiceResolved(resolved())]);
}

#[test]
fn address_info_v4_frame() {
    let mut a = Assembler::new();
    assert_eq!(
        a.feed(&address_frame(&[192, 168, 1, 7])),
        vec![MDnsResponderEvent::AddressInfoResolved(AddressInfo {
            hostname: "h.local.".to_string(),
            address: IpAddress::V4([192, 168, 1, 7]),
        })]
    );
}

#[test]
fn address_info_v6_frame() {
    let octets: [u8; 16] = [0xfe, 0x80, 0, 0, 0, 0, 0, 0, 0x12, 0x34, 0x56, 0x78, 0x9a, 0xbc, 0xde, 0xf0];
    let mut a = Assembler::new();
    assert_eq!(
        a.feed(&address_frame(&octets)),
        vec![MDnsResponderEvent::AddressInfoResolved(AddressInfo {
            hostname: "h.local.".to_string(),
            address: IpAddress::V6(octets),
        })]
    );
}

#[test]
fn malformed_header_then_valid_frame() {
    let mut a = Assembler::new();
    let bad = frame(99, 0, &[]);
    assert_eq!(bad.len(), 28);
    assert_eq!(a.feed(&bad), vec![]);
    assert_eq!(a.pending(), 0);
    assert_eq!(a.feed(&browse_frame(0x2)), vec![MDnsResponderEvent::ServiceAdded(service())]);
}

#[test]
fn malformed_header_discards_the_whole_buffer() {
    let mut a = Assembler::new();
    let mut bytes = frame(99, 0, &[]);
    bytes.extend_from_slice(&browse_frame(0x2));
    assert_eq!(a.feed(&bytes), vec![]);
    assert_eq!(a.pending(), 0);
}

#[test]
fn byte_by_byte_stream_gives_every_event_in_order() {
    let mut stream = browse_frame(0x2);
    stream.extend_from_slice(&resolve_frame());
    stream.extend_from_slice(&browse_frame(0x0));
    stream.extend_from_slice(&address_frame(&[10, 0, 0, 1]));
    let expected = vec![
        MDnsResponderEvent::ServiceAdded(service()),
        MDnsResponderEvent::ServiceResolved(resolved()),
        MDnsResponderEvent::ServiceRemoved(service()),
        MDnsResponderEvent::AddressInfoResolved(AddressInfo {
            hostname: "h.local.".to_string(),
            address: IpAddress::V4([10, 0, 0, 1]),
        }),
    ];
    let mut a = Assembler::new();
    let mut events = Vec::new();
    for b in stream.iter() {
        events.extend(a.feed(&[*b]));
    }
    assert_eq!(events, expected);
    assert_eq!(a.pending(), 0);

    let mut a = Assembler::new();
    assert_eq!(a.feed(&stream), expected);

    for size in [3usize, 7, 28, 29, 50] {
        let mut a = Assembler::new();
        let mut events = Vec::new();
        for chunk in stream.chunks(size) {
            events.extend(a.feed(chunk));
        }
        assert_eq!(events, expected, "chunks of {}", size);
    }
}

#[test]
fn unreadable_body_skips_only_its_frame() {
    let mut body = reply_header(0x2);
    body.extend_from_slice(b"_x\0");
    let mut bytes = frame(66, 1, &body);
    bytes.extend_from_slice(&browse_frame(0x2));
    let mut a = Assembler::new();
    assert_eq!(a.feed(&bytes), vec![MDnsResponderEvent::ServiceAdded(service())]);
    assert_eq!(a.pending(), 0);
}

#[test]
fn other_replies_and_bad_addresses_give_no_event() {
    let mut bytes = frame(68, 1, &[1, 2, 3]);
    bytes.extend_from_slice(&address_frame(&[1, 2, 3, 4, 5]));
    bytes.extend_from_slice(&browse_frame(0x0));
    let mut a = Assembler::new();
    assert_eq!(a.feed(&bytes), vec![MDnsResponderEvent::ServiceRemoved(service())]);
}

#[test]
fn request_operation_discards_the_whole_buffer() {
    let mut bytes = browse_frame(0x2);
    bytes.extend_from_slice(&frame(6, 1, &[1, 2]));
    bytes.extend_from_slice(&browse_frame(0x0));
    let mut a = Assembler::new();
    assert_eq!(a.feed(&bytes), vec![MDnsResponderEvent::ServiceAdded(service())]);
    assert_eq!(a.pending(), 0);
    assert_eq!(a.feed(&frame(63, 0, &[]))[..], []);
    assert_eq!(a.pending(), 0);
    assert_eq!(a.feed(&browse_frame(0x0)), vec![MDnsResponderEvent::ServiceRemoved(service())]);
}

#[test]
fn partial_frame_waits() {
    let f = resolve_frame();
    let mut a = Assembler::new();
    assert_eq!(a.feed(&f[..27]), vec![]);
    assert_eq!(a.pending(), 27);
    assert_eq!(a.feed(&f[27..40]), vec![]);
    assert_eq!(a.pending(), 40);
    assert_eq!(a.feed(&f[40..]), vec![MDnsResponderEvent::ServiceResolved(resolved())]);
    assert_eq!(a.pending(), 0);
}

#[test]
fn parse_frame_outcomes() {
    let f = browse_frame(0x2);
    assert_eq!(parse_frame(&f), Ok((48, Some(MDnsResponderEvent::ServiceAdded(service())))));
    assert_eq!(parse_frame(&f[..20]), Err(InternalError::IncompleteFrame));
    assert_eq!(parse_frame(&f[..47]), Err(InternalError::IncompleteFrame));
    assert_eq!(parse_frame(&frame(99, 0, &[])), Err(InternalError::FrameParsingFailed));
    assert_eq!(parse_frame(&frame(68, 0, &[7])), Ok((29, None)));
    assert_eq!(parse_frame(&frame(7, 0, &[7])), Err(InternalError::FrameParsingFailed));
    assert_eq!(parse_frame(&frame(7, 0, &[7])[..28]), Err(InternalError::FrameParsingFailed));
}

#[test]
fn reader_steps() {
    let f = browse_frame(0x2);
    let mut a = Assembler::new();
    match a.on_read(ReadOutcome::Data(f[..30].to_vec())) {
        ReaderAction::Publish(events) => assert!(events.is_empty()),
        _ => panic!("expected publish"),
    }
    assert!(matches!(a.on_read(ReadOutcome::WouldBlock), ReaderAction::Wait));
    assert_eq!(a.pending(), 30);
    match a.on_read(ReadOutcome::Data(f[30..].to_vec())) {
        ReaderAction::Publish(events) => {
            assert_eq!(events, vec![MDnsResponderEvent::ServiceAdded(service())])
        }
        _ => panic!("expected publish"),
    }
    assert!(matches!(a.on_read(ReadOutcome::Data(vec![])), ReaderAction::Stop));
    assert!(matches!(a.on_read(ReadOutcome::Failed), ReaderAction::Stop));
}

#[test]
fn cancellation_stops_and_discards_pending_bytes() {
    let f = browse_frame(0x2);
    let mut a = Assembler::new();
    let _ = a.on_read(ReadOutcome::Data(f[..10].to_vec()));
    assert_eq!(a.pending(), 10);
    assert!(matches!(a.on_read(ReadOutcome::Cancelled), ReaderAction::Stop));
    assert_eq!(a.pending(), 0);
}
