//! Address lookup: asking for the addresses of a host name, and reading each reply record.
use vstd::prelude::*;
use vstd::utf8::*;

use super::{decode_reply_header, ReplyError, ReplyHeader, ReplyHeaderView, REPLY_HEADER_SIZE};
use crate::wire::{
    be16_at, be32, be32_at, be_value, copy_range, cstr_at, cstr_from_buf, lemma_be32_field,
    lemma_be32_value, lemma_cstr_encoded, lemma_nul_index, nul_index, push_be32, push_cstr,
    read_be16, read_be32,
};

pub use super::ServiceFlags;

verus! {

/// The address families of a lookup, as the daemon codes them.
#[derive(Debug, Clone, Copy, PartialEq, Eq, Structural)]
pub enum Protocol {
    IPv4,
    IPv6,
    Both,
}

impl Protocol {
    /// The code of this protocol choice.
    pub open spec fn bits(self) -> u32 {
        match self {
            Protocol::IPv4 => 0x1,
            Protocol::IPv6 => 0x2,
            Protocol::Both => 0x3,
        }
    }

    /// The code of this protocol choice.
    pub fn to_u32(&self) -> (r: u32)
        ensures
            r == self.bits(),
    {
        match self {
            Protocol::IPv4 => 0x1,
            Protocol::IPv6 => 0x2,
            Protocol::Both => 0x3,
        }
    }
}

/// The wire choice that stands for a user's choice of address families.
pub open spec fn protocol_of(proto: crate::Protocol) -> Protocol {
    match proto {
        crate::Protocol::IPv4 => Protocol::IPv4,
        crate::Protocol::IPv6 => Protocol::IPv6,
        crate::Protocol::Both => Protocol::Both,
    }
}

impl From<crate::Protocol> for Protocol {
    fn from(proto: crate::Protocol) -> (r: Protocol) {
        match proto {
            crate::Protocol::IPv4 => Protocol::IPv4,
            crate::Protocol::IPv6 => Protocol::IPv6,
            crate::Protocol::Both => Protocol::Both,
        }
    }
}

impl vstd::std_specs::convert::FromSpecImpl<crate::Protocol> for Protocol {
    open spec fn obeys_from_spec() -> bool {
        true
    }

    open spec fn from_spec(proto: crate::Protocol) -> Protocol {
        protocol_of(proto)
    }
}

/// A request for the addresses of `hostname`.
pub struct Request {
    pub service_flags: ServiceFlags,
    pub interface_index: u32,
    pub protocol: Protocol,
    pub hostname: String,
}

/// The fields of an address request, as the daemon reads them back.
pub struct RequestView {
    pub service_flags: u32,
    pub interface_index: u32,
    pub protocol: u32,
    pub hostname: Seq<char>,
}

impl View for Request {
    type V = RequestView;

    open spec fn view(&self) -> RequestView {
        RequestView {
            service_flags: self.service_flags.bits(),
            interface_index: self.interface_index,
            protocol: self.protocol.bits(),
            hostname: self.hostname@,
        }
    }
}

/// The body of an address request: flags, interface index and protocol, big-endian, then the
/// host name as UTF-8 with a terminating zero byte.
pub open spec fn encode_addrinfo_request(v: RequestView) -> Seq<u8> {
    be32(v.service_flags) + be32(v.interface_index) + be32(v.protocol) + encode_utf8(v.hostname)
        + seq![0u8]
}

/// The address request that body `b` holds, if it is one: three 32-bit fields, then exactly
/// one terminated UTF-8 string.
pub open spec fn decode_addrinfo_request(b: Seq<u8>) -> Option<RequestView> {
    if b.len() < 12 || nul_index(b, 12) + 1 != b.len() {
        None
    } else {
        Some(
            RequestView {
                service_flags: be32_at(b, 0),
                interface_index: be32_at(b, 4),
                protocol: be32_at(b, 8),
                hostname: decode_utf8(b.subrange(12, nul_index(b, 12))),
            },
        )
    }
}

impl Request {
    /// A request with the given fields.
    pub fn new(
        service_flags: ServiceFlags,
        interface_index: u32,
        protocol: Protocol,
        hostname: String,
    ) -> (r: Self)
        ensures
            r.service_flags == service_flags,
            r.interface_index == interface_index,
            r.protocol == protocol,
            r.hostname@ == hostname@,
    {
        Request { service_flags, interface_index, protocol, hostname }
    }

    /// The body bytes of this request.
    pub fn to_bytes(&self) -> (r: Vec<u8>)
        ensures
            r@ == encode_addrinfo_request(self@),
    {
        let mut buf: Vec<u8> = Vec::new();
        push_be32(&mut buf, self.service_flags.to_u32());
        push_be32(&mut buf, self.interface_index);
        push_be32(&mut buf, self.protocol.to_u32());
        push_cstr(&mut buf, &self.hostname);
        buf
    }
}

/// Reading back an encoded address request gives its fields, when the host name holds no NUL
/// character.
pub proof fn lemma_addrinfo_request_round_trip(v: RequestView)
    requires
        !v.hostname.contains('\0'),
    ensures
        decode_addrinfo_request(encode_addrinfo_request(v)) == Some(v),
{
    let head = be32(v.service_flags) + be32(v.interface_index) + be32(v.protocol);
    let b = encode_addrinfo_request(v);
    assert(b =~= head + encode_utf8(v.hostname) + seq![0u8] + Seq::<u8>::empty());
    lemma_cstr_encoded(head, v.hostname, Seq::<u8>::empty());
    assert(b.subrange(0, 4) =~= be32(v.service_flags));
    assert(b.subrange(4, 8) =~= be32(v.interface_index));
    assert(b.subrange(8, 12) =~= be32(v.protocol));
    lemma_be32_field(b, 0, v.service_flags);
    lemma_be32_field(b, 4, v.interface_index);
    lemma_be32_field(b, 8, v.protocol);
}

/// The integer fields of an encoded address request are stored big-endian.
pub proof fn lemma_addrinfo_request_big_endian(v: RequestView)
    ensures
        be_value(encode_addrinfo_request(v).subrange(0, 4)) == v.service_flags,
        be_value(encode_addrinfo_request(v).subrange(4, 8)) == v.interface_index,
        be_value(encode_addrinfo_request(v).subrange(8, 12)) == v.protocol,
{
    let b = encode_addrinfo_request(v);
    assert(b.subrange(0, 4) =~= be32(v.service_flags));
    assert(b.subrange(4, 8) =~= be32(v.interface_index));
    assert(b.subrange(8, 12) =~= be32(v.protocol));
    lemma_be32_value(v.service_flags);
    lemma_be32_value(v.interface_index);
    lemma_be32_value(v.protocol);
}

/// An address reply: one resource record of a host name.
#[derive(Debug, PartialEq, Eq)]
pub struct Reply {
    pub header: ReplyHeader,
    pub name: String,
    pub rrtype: u16,
    pub rrclass: u16,
    pub rdlen: u16,
    pub rdata: Vec<u8>,
    pub ttl: u32,
}

/// What an address [`Reply`] holds.
pub struct ReplyView {
    pub header: ReplyHeaderView,
    pub name: Seq<char>,
    pub rrtype: u16,
    pub rrclass: u16,
    pub rdlen: u16,
    pub rdata: Seq<u8>,
    pub ttl: u32,
}

impl View for Reply {
    type V = ReplyView;

    open spec fn view(&self) -> ReplyView {
        ReplyView {
            header: self.header@,
            name: self.name@,
            rrtype: self.rrtype,
            rrclass: self.rrclass,
            rdlen: self.rdlen,
            rdata: self.rdata@,
            ttl: self.ttl,
        }
    }
}

/// The address reply that body `b` holds: the reply header, the name (a string up to a zero
/// byte), record type, class and data length (big-endian 16-bit fields), that many bytes of
/// record data, and the time to live (big-endian 32-bit).
pub open spec fn decode_addrinfo_reply(b: Seq<u8>) -> Option<ReplyView> {
    match decode_reply_header(b) {
        None => None,
        Some(header) => {
            let o = nul_index(b, REPLY_HEADER_SIZE as int) + 1;
            let rdlen = be16_at(b, o + 4);
            let data = o + 6;
            if o + 6 > b.len() || data + rdlen + 4 > b.len() {
                None
            } else {
                Some(
                    ReplyView {
                        header,
                        name: cstr_at(b, REPLY_HEADER_SIZE as int),
                        rrtype: be16_at(b, o),
                        rrclass: be16_at(b, o + 2),
                        rdlen,
                        rdata: b.subrange(data, data + rdlen),
                        ttl: be32_at(b, data + rdlen),
                    },
                )
            }
        },
    }
}

impl Reply {
    /// Reads an address reply body.
    pub fn from_bytes(buf: &[u8]) -> (r: Result<Self, ReplyError>)
        ensures
            match r {
                Ok(reply) => decode_addrinfo_reply(buf@) == Some(reply@),
                Err(e) => decode_addrinfo_reply(buf@) is None && e == ReplyError::Truncated,
            },
    {
        let header = match ReplyHeader::from_bytes(buf) {
            Ok(h) => h,
            Err(e) => {
                return Err(e);
            },
        };
        let (name, end) = cstr_from_buf(buf, REPLY_HEADER_SIZE);
        proof {
            lemma_nul_index(buf@, REPLY_HEADER_SIZE as int);
        }
        if end >= buf.len() || buf.len() - (end + 1) < 6 {
            return Err(ReplyError::Truncated);
        }
        let offset = end + 1;
        let rrtype = read_be16(buf, offset);
        let rrclass = read_be16(buf, offset + 2);
        let rdlen = read_be16(buf, offset + 4);
        let offset = offset + 6;
        if buf.len() - offset < rdlen as usize + 4 {
            return Err(ReplyError::Truncated);
        }
        let rdata = copy_range(buf, offset, offset + rdlen as usize);
        let ttl = read_be32(buf, offset + rdlen as usize);
        Ok(Reply { header, name, rrtype, rrclass, rdlen, rdata, ttl })
    }
}

} // verus!
