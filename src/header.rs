//! The fixed 28-byte header that starts every message on the daemon's socket.
use vstd::prelude::*;

use crate::wire::{
    be32, be32_at, be64, be64_at, be_value, lemma_be32_field, lemma_be32_value, lemma_be64_field,
    lemma_be64_value, push_be32, push_be64, read_be32, read_be64,
};

pub mod reply;
pub mod request;

use reply::{is_reply_code, ReplyOperation, REPLY_OPERATION_START};
use request::{is_request_code, RequestOperation};

verus! {

/// Size in bytes of an encoded [`IpcMessageHeader`].
pub const IPC_HEADER_SIZE: usize = 28;

/// The operation a message carries: a request (code below 64) or a reply.
#[derive(Debug, Clone, Copy, PartialEq, Eq, Structural)]
pub enum Operation {
    Request(RequestOperation),
    Reply(ReplyOperation),
}

impl Operation {
    /// The code that stands for this operation in a message header.
    pub open spec fn code(self) -> u32 {
        match self {
            Operation::Request(op) => op.code(),
            Operation::Reply(op) => op.code(),
        }
    }

    /// The code of this operation.
    pub fn to_u32(&self) -> (r: u32)
        ensures
            r == self.code(),
    {
        match self {
            Operation::Request(op) => op.to_u32(),
            Operation::Reply(op) => op.to_u32(),
        }
    }
}

/// Flags of the header's `ipc_flags` field.
#[derive(Debug, Clone, Copy, PartialEq, Eq, Structural)]
pub enum IpcFlags {
    NoReply,
    TrailingTlvs,
    NoErrSd,
}

impl IpcFlags {
    /// The bit value of this flag.
    pub open spec fn bits(self) -> u32 {
        match self {
            IpcFlags::NoReply => 0x0,
            IpcFlags::TrailingTlvs => 0x2,
            IpcFlags::NoErrSd => 0x4,
        }
    }

    /// The bit value of this flag.
    pub fn to_u32(&self) -> (r: u32)
        ensures
            r == self.bits(),
    {
        match self {
            IpcFlags::NoReply => 0x0,
            IpcFlags::TrailingTlvs => 0x2,
            IpcFlags::NoErrSd => 0x4,
        }
    }
}

/// Why a header could not be read.
#[derive(Debug, Clone, Copy, PartialEq, Eq, Structural)]
pub enum HeaderError {
    /// Fewer than 28 bytes were given.
    ShortBuffer,
    /// The operation code is neither a known request nor a known reply.
    UnknownOperation,
}

/// The header of one message; `data_length` counts the body bytes that follow it.
#[derive(Debug, Clone, Copy, PartialEq, Eq, Structural)]
pub struct IpcMessageHeader {
    pub version: u32,
    pub data_length: u32,
    pub ipc_flags: u32,
    pub operation: Operation,
    pub client_context: u64,
    pub reg_index: u32,
}

/// The operation whose code is `code`, if any.
pub open spec fn operation_of(code: u32) -> Option<Operation> {
    if exists|op: Operation| op.code() == code {
        Some(choose|op: Operation| op.code() == code)
    } else {
        None
    }
}

/// The 28 bytes of `h`: each field big-endian, in declaration order.
pub open spec fn encode_header(h: IpcMessageHeader) -> Seq<u8> {
    be32(h.version) + be32(h.data_length) + be32(h.ipc_flags) + be32(h.operation.code()) + be64(
        h.client_context,
    ) + be32(h.reg_index)
}

/// The header at the start of `b`.
pub open spec fn decode_header(b: Seq<u8>) -> Result<IpcMessageHeader, HeaderError> {
    if b.len() < IPC_HEADER_SIZE {
        Err(HeaderError::ShortBuffer)
    } else {
        match operation_of(be32_at(b, 12)) {
            None => Err(HeaderError::UnknownOperation),
            Some(operation) => Ok(
                IpcMessageHeader {
                    version: be32_at(b, 0),
                    data_length: be32_at(b, 4),
                    ipc_flags: be32_at(b, 8),
                    operation,
                    client_context: be64_at(b, 16),
                    reg_index: be32_at(b, 24),
                },
            ),
        }
    }
}

/// Distinct operations have distinct codes; a code names a reply exactly when it is 64 or more.
pub proof fn lemma_operation_code_injective(a: Operation, b: Operation)
    ensures
        a.code() == b.code() ==> a == b,
        a is Reply <==> a.code() >= REPLY_OPERATION_START,
{
    match (a, b) {
        (Operation::Request(x), Operation::Request(y)) => {
            request::lemma_request_code_injective(x, y);
        },
        (Operation::Reply(x), Operation::Reply(y)) => {
            reply::lemma_reply_code_injective(x, y);
        },
        (Operation::Request(x), Operation::Reply(y)) => {
            request::lemma_request_code_injective(x, x);
            reply::lemma_reply_code_injective(y, y);
        },
        (Operation::Reply(x), Operation::Request(y)) => {
            request::lemma_request_code_injective(y, y);
            reply::lemma_reply_code_injective(x, x);
        },
    }
}

/// `operation_of` finds exactly the operation that has the code.
pub proof fn lemma_operation_of(op: Operation)
    ensures
        operation_of(op.code()) == Some(op),
{
    let c = choose|o: Operation| o.code() == op.code();
    lemma_operation_code_injective(c, op);
}

/// Reading back the bytes of an encoded header gives the same header.
pub proof fn lemma_header_round_trip(h: IpcMessageHeader)
    ensures
        decode_header(encode_header(h)) == Ok::<IpcMessageHeader, HeaderError>(h),
{
    let b = encode_header(h);
    assert(b.subrange(0, 4) =~= be32(h.version));
    assert(b.subrange(4, 8) =~= be32(h.data_length));
    assert(b.subrange(8, 12) =~= be32(h.ipc_flags));
    assert(b.subrange(12, 16) =~= be32(h.operation.code()));
    assert(b.subrange(16, 24) =~= be64(h.client_context));
    assert(b.subrange(24, 28) =~= be32(h.reg_index));
    lemma_be32_field(b, 0, h.version);
    lemma_be32_field(b, 4, h.data_length);
    lemma_be32_field(b, 8, h.ipc_flags);
    lemma_be32_field(b, 12, h.operation.code());
    lemma_be64_field(b, 16, h.client_context);
    lemma_be32_field(b, 24, h.reg_index);
    lemma_operation_of(h.operation);
}

/// Every integer field of an encoded header is stored big-endian: its bytes, read as a
/// base-256 number with the most significant byte first, give the field's value.
pub proof fn lemma_header_big_endian(h: IpcMessageHeader)
    ensures
        encode_header(h).len() == IPC_HEADER_SIZE,
        be_value(encode_header(h).subrange(0, 4)) == h.version,
        be_value(encode_header(h).subrange(4, 8)) == h.data_length,
        be_value(encode_header(h).subrange(8, 12)) == h.ipc_flags,
        be_value(encode_header(h).subrange(12, 16)) == h.operation.code(),
        be_value(encode_header(h).subrange(16, 24)) == h.client_context,
        be_value(encode_header(h).subrange(24, 28)) == h.reg_index,
{
    let b = encode_header(h);
    assert(b.subrange(0, 4) =~= be32(h.version));
    assert(b.subrange(4, 8) =~= be32(h.data_length));
    assert(b.subrange(8, 12) =~= be32(h.ipc_flags));
    assert(b.subrange(12, 16) =~= be32(h.operation.code()));
    assert(b.subrange(16, 24) =~= be64(h.client_context));
    assert(b.subrange(24, 28) =~= be32(h.reg_index));
    lemma_be32_value(h.version);
    lemma_be32_value(h.data_length);
    lemma_be32_value(h.ipc_flags);
    lemma_be32_value(h.operation.code());
    lemma_be64_value(h.client_context);
    lemma_be32_value(h.reg_index);
}

/// A header is read from its first 28 bytes alone.
pub proof fn lemma_decode_header_prefix(a: Seq<u8>, b: Seq<u8>)
    requires
        a.len() >= IPC_HEADER_SIZE,
    ensures
        decode_header(a + b) == decode_header(a),
{
    assert forall|i: int| 0 <= i < a.len() implies (a + b)[i] == a[i] by {}
    assert(be32_at(a + b, 0) == be32_at(a, 0));
    assert(be32_at(a + b, 4) == be32_at(a, 4));
    assert(be32_at(a + b, 8) == be32_at(a, 8));
    assert(be32_at(a + b, 12) == be32_at(a, 12));
    assert(be64_at(a + b, 16) == be64_at(a, 16));
    assert(be32_at(a + b, 24) == be32_at(a, 24));
}

impl IpcMessageHeader {
    /// Reads the header at the start of `buf`.
    pub fn from(buf: &[u8]) -> (r: Result<Self, HeaderError>)
        ensures
            r == decode_header(buf@),
    {
        if buf.len() < IPC_HEADER_SIZE {
            return Err(HeaderError::ShortBuffer);
        }
        let version = read_be32(buf, 0);
        let data_length = read_be32(buf, 4);
        let ipc_flags = read_be32(buf, 8);
        let operation_num = read_be32(buf, 12);
        let client_context = read_be64(buf, 16);
        let reg_index = read_be32(buf, 24);

        let operation;
        if operation_num >= REPLY_OPERATION_START {
            match ReplyOperation::from_u32(operation_num) {
                Some(op) => {
                    operation = Operation::Reply(op);
                },
                None => {
                    proof {
                        assert forall|o: Operation| o.code() != operation_num by {
                            lemma_operation_code_injective(o, o);
                            if let Operation::Reply(x) = o {
                                reply::lemma_reply_code_injective(x, x);
                            }
                        }
                    }
                    return Err(HeaderError::UnknownOperation);
                },
            }
        } else {
            match RequestOperation::from_u32(operation_num) {
                Some(op) => {
                    operation = Operation::Request(op);
                },
                None => {
                    proof {
                        assert forall|o: Operation| o.code() != operation_num by {
                            lemma_operation_code_injective(o, o);
                            if let Operation::Request(x) = o {
                                request::lemma_request_code_injective(x, x);
                            }
                        }
                    }
                    return Err(HeaderError::UnknownOperation);
                },
            }
        }
        proof {
            lemma_operation_of(operation);
        }
        Ok(
            IpcMessageHeader {
                version,
                data_length,
                ipc_flags,
                operation,
                client_context,
                reg_index,
            },
        )
    }

    /// A header with the given fields.
    pub fn new(
        version: u32,
        data_length: u32,
        ipc_flags: u32,
        operation: Operation,
        client_context: u64,
        reg_index: u32,
    ) -> (r: Self)
        ensures
            r == (IpcMessageHeader {
                version,
                data_length,
                ipc_flags,
                operation,
                client_context,
                reg_index,
            }),
    {
        IpcMessageHeader { version, data_length, ipc_flags, operation, client_context, reg_index }
    }

    /// The 28 bytes of this header.
    pub fn to_bytes(&self) -> (r: Vec<u8>)
        ensures
            r@ == encode_header(*self),
    {
        let mut buf: Vec<u8> = Vec::with_capacity(IPC_HEADER_SIZE);
        push_be32(&mut buf, self.version);
        push_be32(&mut buf, self.data_length);
        push_be32(&mut buf, self.ipc_flags);
        push_be32(&mut buf, self.operation.to_u32());
        push_be64(&mut buf, self.client_context);
        push_be32(&mut buf, self.reg_index);
        proof {
            assert(buf@ =~= encode_header(*self));
        }
        buf
    }
}

} // verus!
