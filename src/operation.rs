//! Bodies of the requests a client sends and of the replies it reads.
use vstd::prelude::*;

use crate::wire::{be32_at, read_be32};

pub mod addrinfo;
pub mod browse;
pub mod resolve;

verus! {

/// Size in bytes of the header that starts every reply body.
pub const REPLY_HEADER_SIZE: usize = 12;

/// Per-operation flags of a request.
#[derive(Debug, Clone, Copy, PartialEq, Eq, Structural)]
pub enum ServiceFlags {
    NoFlags,
    AutoTrigger,
    Add,
    Default,
    ForceMulticast,
    IncludeP2p,
    IncludeAwdl,
}

impl ServiceFlags {
    /// The bit value of these flags.
    pub open spec fn bits(self) -> u32 {
        match self {
            ServiceFlags::NoFlags => 0x0,
            ServiceFlags::AutoTrigger => 0x1,
            ServiceFlags::Add => 0x2,
            ServiceFlags::Default => 0x3,
            ServiceFlags::ForceMulticast => 0x400,
            ServiceFlags::IncludeP2p => 0x20000,
            ServiceFlags::IncludeAwdl => 0x100000,
        }
    }

    /// The bit value of these flags.
    pub fn to_u32(&self) -> (r: u32)
        ensures
            r == self.bits(),
    {
        match self {
            ServiceFlags::NoFlags => 0x0,
            ServiceFlags::AutoTrigger => 0x1,
            ServiceFlags::Add => 0x2,
            ServiceFlags::Default => 0x3,
            ServiceFlags::ForceMulticast => 0x400,
            ServiceFlags::IncludeP2p => 0x20000,
            ServiceFlags::IncludeAwdl => 0x100000,
        }
    }
}

/// A flag of a reply header.
#[derive(Debug, Clone, Copy, PartialEq, Eq, Structural)]
pub enum ReplyFlags {
    MoreComing,
    Add,
    ThresholdReached,
}

impl ReplyFlags {
    /// The bit of this flag.
    pub open spec fn bit(self) -> u32 {
        match self {
            ReplyFlags::MoreComing => 0x1,
            ReplyFlags::Add => 0x2,
            ReplyFlags::ThresholdReached => 0x2000000,
        }
    }
}

/// `f` alone if its bit is set in `value`, else nothing.
pub open spec fn flag_if_set(value: u32, f: ReplyFlags) -> Seq<ReplyFlags> {
    if value & f.bit() != 0 {
        seq![f]
    } else {
        seq![]
    }
}

/// The known flags whose bits are set in `value`, in the order of their bits; other bits
/// are ignored.
pub open spec fn reply_flags_of(value: u32) -> Seq<ReplyFlags> {
    flag_if_set(value, ReplyFlags::MoreComing) + flag_if_set(value, ReplyFlags::Add) + flag_if_set(
        value,
        ReplyFlags::ThresholdReached,
    )
}

impl ReplyFlags {
    /// The known flags set in `value`; unknown bits are dropped, and no bit set gives none.
    pub fn from_u32(value: u32) -> (r: Vec<ReplyFlags>)
        ensures
            r@ == reply_flags_of(value),
    {
        let mut flags: Vec<ReplyFlags> = Vec::new();
        if value & 0x1 != 0 {
            flags.push(ReplyFlags::MoreComing);
        }
        if value & 0x2 != 0 {
            flags.push(ReplyFlags::Add);
        }
        if value & 0x2000000 != 0 {
            flags.push(ReplyFlags::ThresholdReached);
        }
        assert(flags@ =~= reply_flags_of(value));
        flags
    }
}

/// Why a reply body could not be read.
#[derive(Debug, Clone, Copy, PartialEq, Eq, Structural)]
pub enum ReplyError {
    /// The body ends before a field that it must hold, or a declared length runs past it.
    Truncated,
}

/// The header at the start of every reply body.
#[derive(Debug, PartialEq, Eq)]
pub struct ReplyHeader {
    pub flags: Vec<ReplyFlags>,
    pub interface_index: u32,
    pub error: u32,
}

/// What a [`ReplyHeader`] holds.
pub struct ReplyHeaderView {
    pub flags: Seq<ReplyFlags>,
    pub interface_index: u32,
    pub error: u32,
}

impl View for ReplyHeader {
    type V = ReplyHeaderView;

    open spec fn view(&self) -> ReplyHeaderView {
        ReplyHeaderView {
            flags: self.flags@,
            interface_index: self.interface_index,
            error: self.error,
        }
    }
}

/// The reply header at the start of `b`: flags, interface index and error code, each a
/// big-endian 32-bit field.
pub open spec fn decode_reply_header(b: Seq<u8>) -> Option<ReplyHeaderView> {
    if b.len() < REPLY_HEADER_SIZE {
        None
    } else {
        Some(
            ReplyHeaderView {
                flags: reply_flags_of(be32_at(b, 0)),
                interface_index: be32_at(b, 4),
                error: be32_at(b, 8),
            },
        )
    }
}

impl ReplyHeader {
    /// Reads the reply header at the start of `buf`.
    pub fn from_bytes(buf: &[u8]) -> (r: Result<Self, ReplyError>)
        ensures
            match r {
                Ok(h) => decode_reply_header(buf@) == Some(h@),
                Err(e) => decode_reply_header(buf@) is None && e == ReplyError::Truncated,
            },
    {
        if buf.len() < REPLY_HEADER_SIZE {
            return Err(ReplyError::Truncated);
        }
        let flags = ReplyFlags::from_u32(read_be32(buf, 0));
        let interface_index = read_be32(buf, 4);
        let error = read_be32(buf, 8);
        Ok(ReplyHeader { flags, interface_index, error })
    }
}

} // verus!
