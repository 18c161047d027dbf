//! Operation codes of messages that the daemon sends to a client.
use vstd::prelude::*;

verus! {

/// Codes at or above this value are replies.
pub const REPLY_OPERATION_START: u32 = 64;

/// A reply operation; its wire code is [`ReplyOperation::code`].
#[derive(Debug, Clone, Copy, PartialEq, Eq, Structural)]
pub enum ReplyOperation {
    Enumeration,
    RegisterService,
    Browse,
    Resolve,
    Query,
    RegisterRecord,
    GetProperty,
    PortMapping,
    AddressInfo,
    AsyncError,
}

/// Reply codes are 64 through 73.
pub open spec fn is_reply_code(v: u32) -> bool {
    64 <= v <= 73
}

impl ReplyOperation {
    /// The code that stands for this operation in a message header.
    pub open spec fn code(self) -> u32 {
        match self {
            ReplyOperation::Enumeration => 64,
            ReplyOperation::RegisterService => 65,
            ReplyOperation::Browse => 66,
            ReplyOperation::Resolve => 67,
            ReplyOperation::Query => 68,
            ReplyOperation::RegisterRecord => 69,
            ReplyOperation::GetProperty => 70,
            ReplyOperation::PortMapping => 71,
            ReplyOperation::AddressInfo => 72,
            ReplyOperation::AsyncError => 73,
        }
    }

    /// The operation with the given code, if there is one.
    pub fn from_u32(value: u32) -> (r: Option<ReplyOperation>)
        ensures
            r is Some <==> is_reply_code(value),
            r matches Some(op) ==> op.code() == value,
    {
        match value {
            64 => Some(ReplyOperation::Enumeration),
            65 => Some(ReplyOperation::RegisterService),
            66 => Some(ReplyOperation::Browse),
            67 => Some(ReplyOperation::Resolve),
            68 => Some(ReplyOperation::Query),
            69 => Some(ReplyOperation::RegisterRecord),
            70 => Some(ReplyOperation::GetProperty),
            71 => Some(ReplyOperation::PortMapping),
            72 => Some(ReplyOperation::AddressInfo),
            73 => Some(ReplyOperation::AsyncError),
            _ => None,
        }
    }

    /// The code of this operation.
    pub fn to_u32(&self) -> (r: u32)
        ensures
            r == self.code(),
    {
        match self {
            ReplyOperation::Enumeration => 64,
            ReplyOperation::RegisterService => 65,
            ReplyOperation::Browse => 66,
            ReplyOperation::Resolve => 67,
            ReplyOperation::Query => 68,
            ReplyOperation::RegisterRecord => 69,
            ReplyOperation::GetProperty => 70,
            ReplyOperation::PortMapping => 71,
            ReplyOperation::AddressInfo => 72,
            ReplyOperation::AsyncError => 73,
        }
    }
}

/// Distinct reply operations have distinct codes, and every code is a reply code.
pub proof fn lemma_reply_code_injective(a: ReplyOperation, b: ReplyOperation)
    ensures
        is_reply_code(a.code()),
        a.code() == b.code() ==> a == b,
{
}

} // verus!
