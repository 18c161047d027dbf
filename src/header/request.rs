//! Operation codes of messages that a client sends to the daemon.
use vstd::prelude::*;

verus! {

/// A request operation; its wire code is [`RequestOperation::code`].
#[derive(Debug, Clone, Copy, PartialEq, Eq, Structural)]
pub enum RequestOperation {
    NoOperation,
    Connection,
    RegisterRecord,
    RemoveRecord,
    Enumeration,
    RegisterService,
    Browse,
    Resolve,
    Query,
    ReconfirmRecord,
    AddRecord,
    UpdateRecord,
    SetDomain,
    GetProperty,
    PortMapping,
    AddressInfo,
    SendBpfObsolete,
    GetPid,
    Release,
    ConnectionDelegate,
    Cancel,
}

/// Request codes are 0 through 19, and 63 for a cancellation.
pub open spec fn is_request_code(v: u32) -> bool {
    v <= 19 || v == 63
}

impl RequestOperation {
    /// The code that stands for this operation in a message header.
    pub open spec fn code(self) -> u32 {
        match self {
            RequestOperation::NoOperation => 0,
            RequestOperation::Connection => 1,
            RequestOperation::RegisterRecord => 2,
            RequestOperation::RemoveRecord => 3,
            RequestOperation::Enumeration => 4,
            RequestOperation::RegisterService => 5,
            RequestOperation::Browse => 6,
            RequestOperation::Resolve => 7,
            RequestOperation::Query => 8,
            RequestOperation::ReconfirmRecord => 9,
            RequestOperation::AddRecord => 10,
            RequestOperation::UpdateRecord => 11,
            RequestOperation::SetDomain => 12,
            RequestOperation::GetProperty => 13,
            RequestOperation::PortMapping => 14,
            RequestOperation::AddressInfo => 15,
            RequestOperation::SendBpfObsolete => 16,
            RequestOperation::GetPid => 17,
            RequestOperation::Release => 18,
            RequestOperation::ConnectionDelegate => 19,
            RequestOperation::Cancel => 63,
        }
    }

    /// The operation with the given code, if there is one.
    pub fn from_u32(value: u32) -> (r: Option<RequestOperation>)
        ensures
            r is Some <==> is_request_code(value),
            r matches Some(op) ==> op.code() == value,
    {
        match value {
            0 => Some(RequestOperation::NoOperation),
            1 => Some(RequestOperation::Connection),
            2 => Some(RequestOperation::RegisterRecord),
            3 => Some(RequestOperation::RemoveRecord),
            4 => Some(RequestOperation::Enumeration),
            5 => Some(RequestOperation::RegisterService),
            6 => Some(RequestOperation::Browse),
            7 => Some(RequestOperation::Resolve),
            8 => Some(RequestOperation::Query),
            9 => Some(RequestOperation::ReconfirmRecord),
            10 => Some(RequestOperation::AddRecord),
            11 => Some(RequestOperation::UpdateRecord),
            12 => Some(RequestOperation::SetDomain),
            13 => Some(RequestOperation::GetProperty),
            14 => Some(RequestOperation::PortMapping),
            15 => Some(RequestOperation::AddressInfo),
            16 => Some(RequestOperation::SendBpfObsolete),
            17 => Some(RequestOperation::GetPid),
            18 => Some(RequestOperation::Release),
            19 => Some(RequestOperation::ConnectionDelegate),
            63 => Some(RequestOperation::Cancel),
            _ => None,
        }
    }

    /// The code of this operation.
    pub fn to_u32(&self) -> (r: u32)
        ensures
            r == self.code(),
    {
        match self {
            RequestOperation::NoOperation => 0,
            RequestOperation::Connection => 1,
            RequestOperation::RegisterRecord => 2,
            RequestOperation::RemoveRecord => 3,
            RequestOperation::Enumeration => 4,
            RequestOperation::RegisterService => 5,
            RequestOperation::Browse => 6,
            RequestOperation::Resolve => 7,
            RequestOperation::Query => 8,
            RequestOperation::ReconfirmRecord => 9,
            RequestOperation::AddRecord => 10,
            RequestOperation::UpdateRecord => 11,
            RequestOperation::SetDomain => 12,
            RequestOperation::GetProperty => 13,
            RequestOperation::PortMapping => 14,
            RequestOperation::AddressInfo => 15,
            RequestOperation::SendBpfObsolete => 16,
            RequestOperation::GetPid => 17,
            RequestOperation::Release => 18,
            RequestOperation::ConnectionDelegate => 19,
            RequestOperation::Cancel => 63,
        }
    }
}

/// Distinct request operations have distinct codes, and every code is a request code.
pub proof fn lemma_request_code_injective(a: RequestOperation, b: RequestOperation)
    ensures
        is_request_code(a.code()),
        a.code() == b.code() ==> a == b,
{
}

} // verus!
