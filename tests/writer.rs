use std::collections::HashSet;

use libmdnsresponder::ipc::{
    addrinfo_frame, browse_frame, cancel_frame, resolve_frame, write_addrinfo_request,
    write_browse_request, write_resolve_request,
};
use libmdnsresponder::{channel_capacity, MDnsResponderError, Protocol};

fn header(data_length: u32, op: u32, context: u64) -> Vec<u8> {
    let mut v = Vec::new();
    v.extend_from_slice(&1u32.to_be_bytes());
    v.extend_from_slice(&data_length.to_be_bytes());
    v.extend_from_slice(&4u32.to_be_bytes());
    v.extend_from_slice(&op.to_be_bytes());
    v.extend_from_slice(&context.to_be_bytes());
    v.extend_from_slice(&0u32.to_be_bytes());
    v
}

#[test]
fn cancel_frame_bytes() {
    let bytes = cancel_frame(0xDEADBEEF);
    assert_eq!(bytes.len(), 28);
    assert_eq!(bytes, header(0, 63, 0xDEADBEEF));
    assert_eq!(&bytes[12..16], &[0, 0, 0, 63]);
    assert_eq!(&bytes[16..24], &[0, 0, 0, 0, 0xDE, 0xAD, 0xBE, 0xEF]);
    assert_eq!(&bytes[8..12], &[0, 0, 0, 4]);
}

#[test]
fn browse_frame_bytes() {
    let bytes = browse_frame("_http._tcp".to_string(), "local".to_string(), 0x0102_0304_0506_0708).unwrap();
    let mut expected = header(25, 6, 0x0102_0304_0506_0708);
    expected.extend_from_slice(&[0, 0, 0, 0, 0, 0, 0, 0]);
    expected.extend_from_slice(b"_http._tcp\0local\0");
    assert_eq!(bytes, expected);
}

#[test]
fn resolve_frame_bytes() {
    let bytes = resolve_frame("n".to_string(), "_t._tcp".to_string(), "local".to_string(), 5).unwrap();
    let mut expected = header(24, 7, 5);
    expected.extend_from_slice(&[0, 0, 0, 0, 0, 0, 0, 0]);
    expected.extend_from_slice(b"n\0_t._tcp\0local\0");
    assert_eq!(bytes, expected);
}

#[test]
fn addrinfo_frame_bytes() {
    let bytes = addrinfo_frame(Protocol::IPv6, "h.local".to_string(), 9).unwrap();
    let mut expected = header(20, 15, 9);
    expected.extend_from_slice(&[0, 0, 0, 0, 0, 0, 0, 0, 0, 0, 0, 2]);
    expected.extend_from_slice(b"h.local\0");
    assert_eq!(bytes, expected);
}

#[test]
fn fresh_requests_carry_their_context() {
    let (context, bytes) = write_browse_request("_x".to_string(), "local".to_string()).unwrap();
    assert_eq!(bytes, browse_frame("_x".to_string(), "local".to_string(), context).unwrap());
    let (context, bytes) =
        write_resolve_request("a".to_string(), "_x".to_string(), "local".to_string()).unwrap();
    assert_eq!(bytes, resolve_frame("a".to_string(), "_x".to_string(), "local".to_string(), context).unwrap());
    let (context, bytes) = write_addrinfo_request(Protocol::Both, "h".to_string()).unwrap();
    assert_eq!(bytes, addrinfo_frame(Protocol::Both, "h".to_string(), context).unwrap());
}

#[test]
fn contexts_do_not_collide() {
    let mut seen = HashSet::new();
    for _ in 0..100_000 {
        let (context, _) = write_browse_request("_x".to_string(), "l".to_string()).unwrap();
        assert!(seen.insert(context));
    }
}

#[test]
fn channel_capacity_must_be_positive() {
    assert_eq!(channel_capacity(0), Err(MDnsResponderError::ChannelCreationFailed));
    assert_eq!(channel_capacity(1), Ok(1));
    assert_eq!(channel_capacity(10), Ok(10));
    assert_eq!(MDnsResponderError::IpcWriteFailed.message(), "Failed to write to IPC");
}
