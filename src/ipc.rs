//! The writer surface: the bytes of each request frame, and the fresh context it carries.
use vstd::prelude::*;

use crate::header::request::RequestOperation;
use crate::header::{
    decode_header, encode_header, lemma_decode_header_prefix, lemma_header_round_trip, HeaderError, IpcFlags,
    IpcMessageHeader, Operation, IPC_HEADER_SIZE,
};
use crate::operation::addrinfo::{self, encode_addrinfo_request};
use crate::operation::browse::{self, encode_browse_request};
use crate::operation::resolve::{self, encode_resolve_request};
use crate::operation::ServiceFlags;
use crate::Protocol;

verus! {

/// Relies on `rand::random`: a value drawn from the thread-local generator. Nothing is
/// promised of the value.
pub assume_specification<T>[ rand::random::<T> ]() -> T
    where
        rand::distributions::Standard: rand::distributions::Distribution<T>,
;

/// The protocol version that every request is written in.
pub const IPC_VERSION: u32 = 1;

/// The header of a request: version 1, `NoErrSd` set, registration index 0.
pub open spec fn request_header(op: RequestOperation, data_length: u32, context: u64) -> IpcMessageHeader {
    IpcMessageHeader {
        version: IPC_VERSION,
        data_length,
        ipc_flags: IpcFlags::NoErrSd.bits(),
        operation: Operation::Request(op),
        client_context: context,
        reg_index: 0,
    }
}

/// A whole request frame: the header, whose length field counts the body, then the body.
pub open spec fn request_frame(op: RequestOperation, context: u64, body: Seq<u8>) -> Seq<u8> {
    encode_header(request_header(op, body.len() as u32, context)) + body
}

/// A body that a header can announce: its length fits the 32-bit length field.
pub open spec fn fits_length_field(body: Seq<u8>) -> bool {
    body.len() <= u32::MAX
}

/// The fields of the browse request that the writer sends: no flags, any interface.
pub open spec fn browse_fields(service_type: Seq<char>, service_domain: Seq<char>) -> browse::RequestView {
    browse::RequestView {
        service_flags: ServiceFlags::NoFlags.bits(),
        interface_index: 0,
        reg_type: service_type,
        domain: service_domain,
    }
}

/// The fields of the resolve request that the writer sends: no flags, any interface.
pub open spec fn resolve_fields(
    service_name: Seq<char>,
    reg_type: Seq<char>,
    service_domain: Seq<char>,
) -> resolve::RequestView {
    resolve::RequestView {
        service_flags: ServiceFlags::NoFlags.bits(),
        interface_index: 0,
        name: service_name,
        reg_type,
        domain: service_domain,
    }
}

/// The fields of the address request that the writer sends: no flags, any interface.
pub open spec fn addrinfo_fields(protocol: Protocol, hostname: Seq<char>) -> addrinfo::RequestView {
    addrinfo::RequestView {
        service_flags: ServiceFlags::NoFlags.bits(),
        interface_index: 0,
        protocol: addrinfo::protocol_of(protocol).bits(),
        hostname,
    }
}

/// Every request frame starts with a header that reads back as the request's header, whose
/// length field counts exactly the body that follows it.
pub proof fn lemma_request_frame_header(op: RequestOperation, context: u64, body: Seq<u8>)
    requires
        fits_length_field(body),
    ensures
        decode_header(request_frame(op, context, body)) == Ok::<IpcMessageHeader, HeaderError>(
            request_header(op, body.len() as u32, context),
        ),
        request_frame(op, context, body).len() == IPC_HEADER_SIZE + body.len(),
        request_frame(op, context, body).subrange(IPC_HEADER_SIZE as int, request_frame(op, context, body).len() as int) == body,
{
    let h = request_header(op, body.len() as u32, context);
    lemma_header_round_trip(h);
    lemma_decode_header_prefix(encode_header(h), body);
    assert(request_frame(op, context, body).subrange(IPC_HEADER_SIZE as int, request_frame(op, context, body).len() as int) =~= body);
}

/// Header and body of a request, or nothing when the body is too long for the header's
/// length field.
fn frame_of(op: RequestOperation, context: u64, body: Vec<u8>) -> (r: Option<Vec<u8>>)
    ensures
        r is Some <==> fits_length_field(body@),
        r matches Some(f) ==> f@ == request_frame(op, context, body@),
{
    if body.len() as u64 > u32::MAX as u64 {
        return None;
    }
    let header = IpcMessageHeader::new(
        IPC_VERSION,
        body.len() as u32,
        IpcFlags::NoErrSd.to_u32(),
        Operation::Request(op),
        context,
        0,
    );
    let mut buf = header.to_bytes();
    let mut i: usize = 0;
    while i < body.len()
        invariant
            0 <= i <= body@.len(),
            buf@ == encode_header(request_header(op, body@.len() as u32, context))
                + body@.subrange(0, i as int),
        decreases body@.len() - i,
    {
        buf.push(body[i]);
        i = i + 1;
        assert(buf@ =~= encode_header(request_header(op, body@.len() as u32, context))
            + body@.subrange(0, i as int));
    }
    assert(body@.subrange(0, body@.len() as int) =~= body@);
    Some(buf)
}

/// The frame of a browse request for `service_type` in `service_domain` under `context`;
/// nothing when the body is too long to frame.
pub fn browse_frame(service_type: String, service_domain: String, context: u64) -> (r: Option<Vec<u8>>)
    ensures
        r is Some <==> fits_length_field(encode_browse_request(browse_fields(service_type@, service_domain@))),
        r matches Some(f) ==> f@ == request_frame(
            RequestOperation::Browse,
            context,
            encode_browse_request(browse_fields(service_type@, service_domain@)),
        ),
{
    let request = browse::Request::new(ServiceFlags::NoFlags, 0, service_type, service_domain);
    frame_of(RequestOperation::Browse, context, request.to_bytes())
}

/// The frame of a resolve request for instance `service_name` of `reg_type` in
/// `service_domain` under `context`; nothing when the body is too long to frame.
pub fn resolve_frame(
    service_name: String,
    reg_type: String,
    service_domain: String,
    context: u64,
) -> (r: Option<Vec<u8>>)
    ensures
        r is Some <==> fits_length_field(
            encode_resolve_request(resolve_fields(service_name@, reg_type@, service_domain@)),
        ),
        r matches Some(f) ==> f@ == request_frame(
            RequestOperation::Resolve,
            context,
            encode_resolve_request(resolve_fields(service_name@, reg_type@, service_domain@)),
        ),
{
    let request = resolve::Request::new(
        ServiceFlags::NoFlags,
        0,
        service_name,
        reg_type,
        service_domain,
    );
    frame_of(RequestOperation::Resolve, context, request.to_bytes())
}

/// The frame of an address request for `hostname` in the families `protocol` under
/// `context`; nothing when the body is too long to frame.
pub fn addrinfo_frame(protocol: Protocol, hostname: String, context: u64) -> (r: Option<Vec<u8>>)
    ensures
        r is Some <==> fits_length_field(encode_addrinfo_request(addrinfo_fields(protocol, hostname@))),
        r matches Some(f) ==> f@ == request_frame(
            RequestOperation::AddressInfo,
            context,
            encode_addrinfo_request(addrinfo_fields(protocol, hostname@)),
        ),
{
    let request = addrinfo::Request::new(ServiceFlags::NoFlags, 0, protocol.into(), hostname);
    frame_of(RequestOperation::AddressInfo, context, request.to_bytes())
}

/// The frame that cancels the operation started under `context`: a header alone.
pub fn cancel_frame(context: u64) -> (r: Vec<u8>)
    ensures
        r@ == request_frame(RequestOperation::Cancel, context, Seq::<u8>::empty()),
{
    let header = IpcMessageHeader::new(
        IPC_VERSION,
        0,
        IpcFlags::NoErrSd.to_u32(),
        Operation::Request(RequestOperation::Cancel),
        context,
        0,
    );
    let buf = header.to_bytes();
    assert(buf@ + Seq::<u8>::empty() =~= buf@);
    buf
}

/// A fresh context and the frame of a browse request under it; nothing when the body is too
/// long to frame.
pub fn write_browse_request(service_type: String, service_domain: String) -> (r: Option<(u64, Vec<u8>)>)
    ensures
        r is Some <==> fits_length_field(encode_browse_request(browse_fields(service_type@, service_domain@))),
        r matches Some((context, f)) ==> f@ == request_frame(
            RequestOperation::Browse,
            context,
            encode_browse_request(browse_fields(service_type@, service_domain@)),
        ),
{
    let context = rand::random::<u64>();
    match browse_frame(service_type, service_domain, context) {
        Some(f) => Some((context, f)),
        None => None,
    }
}

/// A fresh context and the frame of a resolve request under it; nothing when the body is
/// too long to frame.
pub fn write_resolve_request(
    service_name: String,
    reg_type: String,
    service_domain: String,
) -> (r: Option<(u64, Vec<u8>)>)
    ensures
        r is Some <==> fits_length_field(
            encode_resolve_request(resolve_fields(service_name@, reg_type@, service_domain@)),
        ),
        r matches Some((context, f)) ==> f@ == request_frame(
            RequestOperation::Resolve,
            context,
            encode_resolve_request(resolve_fields(service_name@, reg_type@, service_domain@)),
        ),
{
    let context = rand::random::<u64>();
    match resolve_frame(service_name, reg_type, service_domain, context) {
        Some(f) => Some((context, f)),
        None => None,
    }
}

/// A fresh context and the frame of an address request under it; nothing when the body is
/// too long to frame.
pub fn write_addrinfo_request(protocol: Protocol, hostname: String) -> (r: Option<(u64, Vec<u8>)>)
    ensures
        r is Some <==> fits_length_field(encode_addrinfo_request(addrinfo_fields(protocol, hostname@))),
        r matches Some((context, f)) ==> f@ == request_frame(
            RequestOperation::AddressInfo,
            context,
            encode_addrinfo_request(addrinfo_fields(protocol, hostname@)),
        ),
{
    let context = rand::random::<u64>();
    match addrinfo_frame(protocol, hostname, context) {
        Some(f) => Some((context, f)),
        None => None,
    }
}

} // verus!
