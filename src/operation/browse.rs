//! Browsing: asking for the instances of a service type in a domain, and the replies that
//! announce each instance's appearance or removal.
use vstd::prelude::*;
use vstd::utf8::*;

use super::{decode_reply_header, ReplyError, ReplyFlags, ReplyHeader, ReplyHeaderView, REPLY_HEADER_SIZE};
use crate::wire::{
    be32, be32_at, cstr_at, cstr_from_buf, lemma_be32_field, lemma_be32_value, lemma_cstr_encoded,
    lemma_nul_index, nul_index, push_be32, push_cstr, be_value,
};

pub use super::ServiceFlags;

verus! {

/// A request to browse for the instances of `reg_type` in `domain`.
pub struct Request {
    pub service_flags: ServiceFlags,
    pub interface_index: u32,
    pub reg_type: String,
    pub domain: String,
}

/// The fields of a browse request, as the daemon reads them back.
pub struct RequestView {
    pub service_flags: u32,
    pub interface_index: u32,
    pub reg_type: Seq<char>,
    pub domain: Seq<char>,
}

impl View for Request {
    type V = RequestView;

    open spec fn view(&self) -> RequestView {
        RequestView {
            service_flags: self.service_flags.bits(),
            interface_index: self.interface_index,
            reg_type: self.reg_type@,
            domain: self.domain@,
        }
    }
}

/// The body of a browse request: flags and interface index, big-endian, then the type and
/// the domain, each as UTF-8 with a terminating zero byte.
pub open spec fn encode_browse_request(v: RequestView) -> Seq<u8> {
    be32(v.service_flags) + be32(v.interface_index) + encode_utf8(v.reg_type) + seq![0u8]
        + encode_utf8(v.domain) + seq![0u8]
}

/// The browse request that body `b` holds, if it is one: two 32-bit fields, then exactly two
/// terminated UTF-8 strings.
pub open spec fn decode_browse_request(b: Seq<u8>) -> Option<RequestView> {
    if b.len() < 8 {
        None
    } else {
        let n1 = nul_index(b, 8);
        if n1 >= b.len() {
            None
        } else {
            let n2 = nul_index(b, n1 + 1);
            if n2 + 1 != b.len() {
                None
            } else {
                Some(
                    RequestView {
                        service_flags: be32_at(b, 0),
                        interface_index: be32_at(b, 4),
                        reg_type: decode_utf8(b.subrange(8, n1)),
                        domain: decode_utf8(b.subrange(n1 + 1, n2)),
                    },
                )
            }
        }
    }
}

impl Request {
    /// A request with the given fields.
    pub fn new(
        service_flags: ServiceFlags,
        interface_index: u32,
        reg_type: String,
        domain: String,
    ) -> (r: Self)
        ensures
            r.service_flags == service_flags,
            r.interface_index == interface_index,
            r.reg_type@ == reg_type@,
            r.domain@ == domain@,
    {
        Request { service_flags, interface_index, reg_type, domain }
    }

    /// The body bytes of this request.
    pub fn to_bytes(&self) -> (r: Vec<u8>)
        ensures
            r@ == encode_browse_request(self@),
    {
        let mut buf: Vec<u8> = Vec::new();
        push_be32(&mut buf, self.service_flags.to_u32());
        push_be32(&mut buf, self.interface_index);
        push_cstr(&mut buf, &self.reg_type);
        push_cstr(&mut buf, &self.domain);
        buf
    }
}

/// Reading back an encoded browse request gives its fields, when neither string holds a
/// NUL character.
pub proof fn lemma_browse_request_round_trip(v: RequestView)
    requires
        !v.reg_type.contains('\0'),
        !v.domain.contains('\0'),
    ensures
        decode_browse_request(encode_browse_request(v)) == Some(v),
{
    let head = be32(v.service_flags) + be32(v.interface_index);
    let e1 = encode_utf8(v.reg_type);
    let e2 = encode_utf8(v.domain);
    let b = encode_browse_request(v);
    assert(b =~= head + e1 + seq![0u8] + (e2 + seq![0u8]));
    lemma_cstr_encoded(head, v.reg_type, e2 + seq![0u8]);
    assert(b =~= (head + e1 + seq![0u8]) + e2 + seq![0u8] + Seq::<u8>::empty());
    lemma_cstr_encoded(head + e1 + seq![0u8], v.domain, Seq::<u8>::empty());
    assert(b.subrange(0, 4) =~= be32(v.service_flags));
    assert(b.subrange(4, 8) =~= be32(v.interface_index));
    lemma_be32_field(b, 0, v.service_flags);
    lemma_be32_field(b, 4, v.interface_index);
}

/// The integer fields of an encoded browse request are stored big-endian.
pub proof fn lemma_browse_request_big_endian(v: RequestView)
    ensures
        be_value(encode_browse_request(v).subrange(0, 4)) == v.service_flags,
        be_value(encode_browse_request(v).subrange(4, 8)) == v.interface_index,
{
    let b = encode_browse_request(v);
    assert(b.subrange(0, 4) =~= be32(v.service_flags));
    assert(b.subrange(4, 8) =~= be32(v.interface_index));
    lemma_be32_value(v.service_flags);
    lemma_be32_value(v.interface_index);
}

/// A browse reply: one service instance that appeared or went away.
#[derive(Debug, PartialEq, Eq)]
pub struct Reply {
    pub header: ReplyHeader,
    pub service_name: String,
    pub service_type: String,
    pub service_domain: String,
}

/// What a browse [`Reply`] holds.
pub struct ReplyView {
    pub header: ReplyHeaderView,
    pub service_name: Seq<char>,
    pub service_type: Seq<char>,
    pub service_domain: Seq<char>,
}

impl View for Reply {
    type V = ReplyView;

    open spec fn view(&self) -> ReplyView {
        ReplyView {
            header: self.header@,
            service_name: self.service_name@,
            service_type: self.service_type@,
            service_domain: self.service_domain@,
        }
    }
}

/// The browse reply that body `b` holds: the reply header, then name, type and domain, each a
/// string up to a zero byte; each of the three must start before the end of the body.
pub open spec fn decode_browse_reply(b: Seq<u8>) -> Option<ReplyView> {
    match decode_reply_header(b) {
        None => None,
        Some(header) => {
            let o1 = REPLY_HEADER_SIZE as int;
            let o2 = nul_index(b, o1) + 1;
            let o3 = nul_index(b, o2) + 1;
            if o1 >= b.len() || o2 >= b.len() || o3 >= b.len() {
                None
            } else {
                Some(
                    ReplyView {
                        header,
                        service_name: cstr_at(b, o1),
                        service_type: cstr_at(b, o2),
                        service_domain: cstr_at(b, o3),
                    },
                )
            }
        },
    }
}

impl Reply {
    /// Reads a browse reply body.
    pub fn from_bytes(buf: &[u8]) -> (r: Result<Self, ReplyError>)
        ensures
            match r {
                Ok(reply) => decode_browse_reply(buf@) == Some(reply@),
                Err(e) => decode_browse_reply(buf@) is None && e == ReplyError::Truncated,
            },
    {
        let header = match ReplyHeader::from_bytes(buf) {
            Ok(h) => h,
            Err(e) => {
                return Err(e);
            },
        };
        let offset = REPLY_HEADER_SIZE;
        if offset >= buf.len() {
            return Err(ReplyError::Truncated);
        }
        let (service_name, end) = cstr_from_buf(buf, offset);
        proof {
            lemma_nul_index(buf@, offset as int);
        }
        if end >= buf.len() - 1 {
            return Err(ReplyError::Truncated);
        }
        let offset = end + 1;
        let (service_type, end) = cstr_from_buf(buf, offset);
        proof {
            lemma_nul_index(buf@, offset as int);
        }
        if end >= buf.len() - 1 {
            return Err(ReplyError::Truncated);
        }
        let offset = end + 1;
        let (service_domain, _end) = cstr_from_buf(buf, offset);
        Ok(Reply { header, service_name, service_type, service_domain })
    }

    /// Whether this reply announces an instance that appeared (rather than one removed).
    pub fn is_add(&self) -> (r: bool)
        ensures
            r == self.header.flags@.contains(ReplyFlags::Add),
    {
        let mut i: usize = 0;
        while i < self.header.flags.len()
            invariant
                0 <= i <= self.header.flags@.len(),
                forall|j: int| 0 <= j < i ==> self.header.flags@[j] != ReplyFlags::Add,
            decreases self.header.flags@.len() - i,
        {
            if self.header.flags[i] == ReplyFlags::Add {
                return true;
            }
            i = i + 1;
        }
        false
    }
}

} // verus!
