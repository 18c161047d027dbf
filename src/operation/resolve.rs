//! Resolving: asking for the host, port and TXT record of one service instance, and reading
//! the reply.
use vstd::prelude::*;
use vstd::utf8::*;

use super::{decode_reply_header, ReplyError, ReplyHeader, REPLY_HEADER_SIZE};
use crate::wire::{
    ascii_string, ascii_text, be16_at, be32, be32_at, be_value, copy_range, cstr_at,
    cstr_from_buf, lemma_be32_field, lemma_be32_value, lemma_cstr_encoded, lemma_nul_index,
    nul_index, push_be32, push_cstr, read_be16,
};

pub use super::ServiceFlags;

verus! {

/// A request to resolve the instance `name` of type `reg_type` in `domain`.
pub struct Request {
    pub service_flags: ServiceFlags,
    pub interface_index: u32,
    pub name: String,
    pub reg_type: String,
    pub domain: String,
}

/// The fields of a resolve request, as the daemon reads them back.
pub struct RequestView {
    pub service_flags: u32,
    pub interface_index: u32,
    pub name: Seq<char>,
    pub reg_type: Seq<char>,
    pub domain: Seq<char>,
}

impl View for Request {
    type V = RequestView;

    open spec fn view(&self) -> RequestView {
        RequestView {
            service_flags: self.service_flags.bits(),
            interface_index: self.interface_index,
            name: self.name@,
            reg_type: self.reg_type@,
            domain: self.domain@,
        }
    }
}

/// The body of a resolve request: flags and interface index, big-endian, then name, type and
/// domain, each as UTF-8 with a terminating zero byte.
pub open spec fn encode_resolve_request(v: RequestView) -> Seq<u8> {
    be32(v.service_flags) + be32(v.interface_index) + encode_utf8(v.name) + seq![0u8]
        + encode_utf8(v.reg_type) + seq![0u8] + encode_utf8(v.domain) + seq![0u8]
}

/// The resolve request that body `b` holds, if it is one: two 32-bit fields, then exactly
/// three terminated UTF-8 strings.
pub open spec fn decode_resolve_request(b: Seq<u8>) -> Option<RequestView> {
    if b.len() < 8 {
        None
    } else {
        let n1 = nul_index(b, 8);
        let n2 = nul_index(b, n1 + 1);
        let n3 = nul_index(b, n2 + 1);
        if n1 >= b.len() || n2 >= b.len() || n3 + 1 != b.len() {
            None
        } else {
            Some(
                RequestView {
                    service_flags: be32_at(b, 0),
                    interface_index: be32_at(b, 4),
                    name: decode_utf8(b.subrange(8, n1)),
                    reg_type: decode_utf8(b.subrange(n1 + 1, n2)),
                    domain: decode_utf8(b.subrange(n2 + 1, n3)),
                },
            )
        }
    }
}

impl Request {
    /// A request with the given fields.
    pub fn new(
        service_flags: ServiceFlags,
        interface_index: u32,
        name: String,
        reg_type: String,
        domain: String,
    ) -> (r: Self)
        ensures
            r.service_flags == service_flags,
            r.interface_index == interface_index,
            r.name@ == name@,
            r.reg_type@ == reg_type@,
            r.domain@ == domain@,
    {
        Request { service_flags, interface_index, name, reg_type, domain }
    }

    /// The body bytes of this request.
    pub fn to_bytes(&self) -> (r: Vec<u8>)
        ensures
            r@ == encode_resolve_request(self@),
    {
        let mut buf: Vec<u8> = Vec::new();
        push_be32(&mut buf, self.service_flags.to_u32());
        push_be32(&mut buf, self.interface_index);
        push_cstr(&mut buf, &self.name);
        push_cstr(&mut buf, &self.reg_type);
        push_cstr(&mut buf, &self.domain);
        buf
    }
}

/// Reading back an encoded resolve request gives its fields, when no string holds a NUL
/// character.
pub proof fn lemma_resolve_request_round_trip(v: RequestView)
    requires
        !v.name.contains('\0'),
        !v.reg_type.contains('\0'),
        !v.domain.contains('\0'),
    ensures
        decode_resolve_request(encode_resolve_request(v)) == Some(v),
{
    let head = be32(v.service_flags) + be32(v.interface_index);
    let e1 = encode_utf8(v.name);
    let e2 = encode_utf8(v.reg_type);
    let e3 = encode_utf8(v.domain);
    let z = seq![0u8];
    let b = encode_resolve_request(v);
    assert(b =~= head + e1 + z + (e2 + z + e3 + z));
    lemma_cstr_encoded(head, v.name, e2 + z + e3 + z);
    assert(b =~= (head + e1 + z) + e2 + z + (e3 + z));
    lemma_cstr_encoded(head + e1 + z, v.reg_type, e3 + z);
    assert(b =~= (head + e1 + z + e2 + z) + e3 + z + Seq::<u8>::empty());
    lemma_cstr_encoded(head + e1 + z + e2 + z, v.domain, Seq::<u8>::empty());
    assert(b.subrange(0, 4) =~= be32(v.service_flags));
    assert(b.subrange(4, 8) =~= be32(v.interface_index));
    lemma_be32_field(b, 0, v.service_flags);
    lemma_be32_field(b, 4, v.interface_index);
}

/// The integer fields of an encoded resolve request are stored big-endian.
pub proof fn lemma_resolve_request_big_endian(v: RequestView)
    ensures
        be_value(encode_resolve_request(v).subrange(0, 4)) == v.service_flags,
        be_value(encode_resolve_request(v).subrange(4, 8)) == v.interface_index,
{
    let b = encode_resolve_request(v);
    assert(b.subrange(0, 4) =~= be32(v.service_flags));
    assert(b.subrange(4, 8) =~= be32(v.interface_index));
    lemma_be32_value(v.service_flags);
    lemma_be32_value(v.interface_index);
}

/// ASCII `\`.
pub const BACKSLASH: u8 = 0x5c;

/// ASCII `"`.
pub const QUOTE: u8 = 0x22;

/// ASCII `0`.
pub const DIGIT_ZERO: u8 = 0x30;

/// The first printable ASCII byte, a space.
pub const FIRST_PRINTABLE: u8 = 0x20;

/// The last printable ASCII byte, `~`.
pub const LAST_PRINTABLE: u8 = 0x7e;

/// The bytes that stand for data byte `b` in the text of a TXT item: `"` and `\` get a
/// backslash before them, a byte outside printable ASCII becomes a backslash and its three
/// decimal digits, and any other byte stands for itself.
pub open spec fn escape_txt_byte(b: u8) -> Seq<u8> {
    if b == QUOTE || b == BACKSLASH {
        seq![BACKSLASH, b]
    } else if b < FIRST_PRINTABLE || b > LAST_PRINTABLE {
        seq![
            BACKSLASH,
            (DIGIT_ZERO + b / 100) as u8,
            (DIGIT_ZERO + b / 10 % 10) as u8,
            (DIGIT_ZERO + b % 10) as u8,
        ]
    } else {
        seq![b]
    }
}

/// The escaped bytes of `s`, byte by byte.
pub open spec fn escape_txt(s: Seq<u8>) -> Seq<u8>
    decreases s.len(),
{
    if s.len() == 0 {
        seq![]
    } else {
        escape_txt(s.drop_last()) + escape_txt_byte(s.last())
    }
}

/// The TXT item at `off`: a length byte `L`, then `L` data bytes; its text and the offset
/// after it, if the item fits in `msg`.
pub open spec fn txt_item_at(msg: Seq<u8>, off: int) -> Option<(Seq<char>, int)> {
    if off < 0 || off + 1 > msg.len() {
        None
    } else {
        let end = off + 1 + msg[off] as int;
        if end > msg.len() {
            None
        } else {
            Some((ascii_text(escape_txt(msg.subrange(off + 1, end))), end))
        }
    }
}

/// The texts of the TXT items from `off` on, up to the end of `msg` or the first item that
/// does not fit, and the offset where reading stopped.
pub open spec fn txt_items(msg: Seq<u8>, off: int) -> (Seq<Seq<char>>, int)
    decreases msg.len() - off,
{
    if off < 0 || off >= msg.len() || off + 1 + msg[off] as int > msg.len() {
        (seq![], off)
    } else {
        let end = off + 1 + msg[off] as int;
        let rest = txt_items(msg, end);
        (seq![ascii_text(escape_txt(msg.subrange(off + 1, end)))] + rest.0, rest.1)
    }
}

/// The TXT items from `off` on: none when `off` is at or past the end, an error when not even
/// the first item fits, and otherwise the items that fit.
pub open spec fn unpack_txt_spec(msg: Seq<u8>, off: int) -> Option<(Seq<Seq<char>>, int)> {
    if off < msg.len() && txt_item_at(msg, off) is None {
        None
    } else {
        Some(txt_items(msg, off))
    }
}

/// Appends a backslash and the three decimal digits of `b`.
fn escape_byte(b: u8, out: &mut Vec<u8>)
    ensures
        final(out)@ == old(out)@ + seq![
            BACKSLASH,
            (DIGIT_ZERO + b / 100) as u8,
            (DIGIT_ZERO + b / 10 % 10) as u8,
            (DIGIT_ZERO + b % 10) as u8,
        ],
{
    out.push(BACKSLASH);
    out.push(DIGIT_ZERO + b / 100);
    out.push(DIGIT_ZERO + b / 10 % 10);
    out.push(DIGIT_ZERO + b % 10);
}

/// Reads the TXT item at `off`; returns its text and the offset after it.
pub fn unpack_string(msg: &[u8], off: usize) -> (r: Result<(String, usize), ReplyError>)
    ensures
        match r {
            Ok((s, next)) => txt_item_at(msg@, off as int) == Some((s@, next as int)),
            Err(e) => txt_item_at(msg@, off as int) is None && e == ReplyError::Truncated,
        },
{
    if off >= msg.len() {
        return Err(ReplyError::Truncated);
    }
    let l = msg[off] as usize;
    let start = off + 1;
    if l > msg.len() - start {
        return Err(ReplyError::Truncated);
    }
    let end = start + l;
    let mut out: Vec<u8> = Vec::with_capacity(l);
    let mut i = start;
    while i < end
        invariant
            start <= i <= end <= msg@.len(),
            out@ == escape_txt(msg@.subrange(start as int, i as int)),
            forall|j: int| 0 <= j < out@.len() ==> out@[j] < 0x80,
        decreases end - i,
    {
        let b = msg[i];
        let ghost before = out@;
        if b == QUOTE || b == BACKSLASH {
            out.push(BACKSLASH);
            out.push(b);
        } else if b < FIRST_PRINTABLE || b > LAST_PRINTABLE {
            escape_byte(b, &mut out);
        } else {
            out.push(b);
        }
        proof {
            let s = msg@.subrange(start as int, i + 1);
            assert(s.drop_last() =~= msg@.subrange(start as int, i as int));
            assert(out@ =~= before + escape_txt_byte(b));
            assert forall|j: int| 0 <= j < out@.len() implies out@[j] < 0x80 by {
                if j >= before.len() {
                    assert(out@[j] == escape_txt_byte(b)[j - before.len()]);
                }
            }
        }
        i = i + 1;
    }
    let s = ascii_string(&out);
    Ok((s, end))
}

/// Reads the TXT items from `offset` to the end of `msg`. When an item does not fit, the
/// items read before it are returned, or an error if there are none.
pub fn unpack_txt(msg: &[u8], offset: usize) -> (r: Result<(Vec<String>, usize), ReplyError>)
    ensures
        match r {
            Ok((items, next)) => unpack_txt_spec(msg@, offset as int) == Some(
                (items.deep_view(), next as int),
            ),
            Err(e) => unpack_txt_spec(msg@, offset as int) is None && e == ReplyError::Truncated,
        },
{
    let mut offset_now = offset;
    let mut txts: Vec<String> = Vec::new();
    while offset_now < msg.len()
        invariant
            txt_items(msg@, offset as int) == (
                txts.deep_view() + txt_items(msg@, offset_now as int).0,
                txt_items(msg@, offset_now as int).1,
            ),
            txts@.len() == 0 ==> offset_now == offset,
            txts@.len() > 0 ==> txt_item_at(msg@, offset as int) is Some,
        ensures
            txt_items(msg@, offset_now as int) == (Seq::<Seq<char>>::empty(), offset_now as int),
            txts@.len() == 0 ==> offset_now >= msg@.len(),
        decreases msg@.len() - offset_now,
    {
        match unpack_string(msg, offset_now) {
            Ok((txt, next)) => {
                let ghost before = txts.deep_view();
                txts.push(txt);
                proof {
                    assert(txts.deep_view() =~= before.push(txt@));
                    let rest = txt_items(msg@, next as int);
                    assert(txt_items(msg@, offset_now as int).0 == seq![txt@] + rest.0);
                    assert(before + (seq![txt@] + rest.0) =~= before.push(txt@) + rest.0);
                }
                offset_now = next;
            },
            Err(e) => {
                if txts.len() == 0 {
                    return Err(e);
                }
                assert(txt_items(msg@, offset_now as int).0 =~= Seq::<Seq<char>>::empty());
                break ;
            },
        }
    }
    proof {
        assert(txts.deep_view() + Seq::<Seq<char>>::empty() =~= txts.deep_view());
    }
    Ok((txts, offset_now))
}

/// A resolve reply: the instance's full name, its host, its port and its TXT record.
#[derive(Debug, PartialEq, Eq)]
pub struct Reply {
    pub full_name: String,
    pub host_target: String,
    pub port: u16,
    pub txt_data: Vec<String>,
}

/// What a resolve [`Reply`] holds.
pub struct ReplyView {
    pub full_name: Seq<char>,
    pub host_target: Seq<char>,
    pub port: u16,
    pub txt_data: Seq<Seq<char>>,
}

impl View for Reply {
    type V = ReplyView;

    open spec fn view(&self) -> ReplyView {
        ReplyView {
            full_name: self.full_name@,
            host_target: self.host_target@,
            port: self.port,
            txt_data: self.txt_data.deep_view(),
        }
    }
}

/// The resolve reply that body `b` holds: the reply header, the full name and the host (each
/// a string up to a zero byte, each starting before the end of the body), the port and the
/// TXT length (big-endian 16-bit fields), then that many bytes of TXT items.
pub open spec fn decode_resolve_reply(b: Seq<u8>) -> Option<ReplyView> {
    let o1 = REPLY_HEADER_SIZE as int;
    let o2 = nul_index(b, o1) + 1;
    let o3 = nul_index(b, o2) + 1;
    let txt_len = be16_at(b, o3 + 2) as int;
    if decode_reply_header(b) is None || o1 >= b.len() || o2 >= b.len() || o3 + 4 > b.len() || o3
        + 4 + txt_len > b.len() {
        None
    } else {
        match unpack_txt_spec(b.subrange(o3 + 4, o3 + 4 + txt_len), 0) {
            None => None,
            Some((txt_data, _)) => Some(
                ReplyView {
                    full_name: cstr_at(b, o1),
                    host_target: cstr_at(b, o2),
                    port: be16_at(b, o3),
                    txt_data,
                },
            ),
        }
    }
}

impl Reply {
    /// Reads a resolve reply body.
    pub fn from_bytes(buf: &[u8]) -> (r: Result<Self, ReplyError>)
        ensures
            match r {
                Ok(reply) => decode_resolve_reply(buf@) == Some(reply@),
                Err(e) => decode_resolve_reply(buf@) is None && e == ReplyError::Truncated,
            },
    {
        if let Err(e) = ReplyHeader::from_bytes(buf) {
            return Err(e);
        }
        let offset = REPLY_HEADER_SIZE;
        if offset >= buf.len() {
            return Err(ReplyError::Truncated);
        }
        let (full_name, end) = cstr_from_buf(buf, offset);
        proof {
            lemma_nul_index(buf@, offset as int);
        }
        if end >= buf.len() - 1 {
            return Err(ReplyError::Truncated);
        }
        let offset = end + 1;
        let (host_target, end) = cstr_from_buf(buf, offset);
        proof {
            lemma_nul_index(buf@, offset as int);
        }
        if end >= buf.len() || buf.len() - (end + 1) < 4 {
            return Err(ReplyError::Truncated);
        }
        let offset = end + 1;
        let port = read_be16(buf, offset);
        let txt_len = read_be16(buf, offset + 2) as usize;
        let offset = offset + 4;
        if txt_len > buf.len() - offset {
            return Err(ReplyError::Truncated);
        }
        let txt = copy_range(buf, offset, offset + txt_len);
        match unpack_txt(txt.as_slice(), 0) {
            Ok((txt_data, _)) => Ok(Reply { full_name, host_target, port, txt_data }),
            Err(e) => Err(e),
        }
    }
}

} // verus!
