//! Client side of the IPC protocol of the local mDNSResponder daemon: the wire codec of
//! requests and replies, the frame assembler that turns the socket's byte stream into
//! discovery events, and the frames that the writer surface sends.
use vstd::prelude::*;

pub mod assembler;
pub mod header;
pub mod ipc;
pub mod mdnsresponder_error;
pub mod operation;
pub mod wire;

pub use mdnsresponder_error::{channel_capacity, InternalError, MDnsResponderError};

verus! {

/// A service instance that appeared or went away.
#[derive(Debug, PartialEq, Eq)]
pub struct Service {
    pub name: String,
    pub service_type: String,
    pub domain: String,
}

/// What a [`Service`] holds.
pub struct ServiceView {
    pub name: Seq<char>,
    pub service_type: Seq<char>,
    pub domain: Seq<char>,
}

impl View for Service {
    type V = ServiceView;

    open spec fn view(&self) -> ServiceView {
        ServiceView { name: self.name@, service_type: self.service_type@, domain: self.domain@ }
    }
}

/// Where a service instance is reached, and its TXT record.
#[derive(Debug, PartialEq, Eq)]
pub struct Resolved {
    pub full_name: String,
    pub host_target: String,
    pub port: u16,
    pub txt_data: Vec<String>,
}

/// What a [`Resolved`] holds.
pub struct ResolvedView {
    pub full_name: Seq<char>,
    pub host_target: Seq<char>,
    pub port: u16,
    pub txt_data: Seq<Seq<char>>,
}

impl View for Resolved {
    type V = ResolvedView;

    open spec fn view(&self) -> ResolvedView {
        ResolvedView {
            full_name: self.full_name@,
            host_target: self.host_target@,
            port: self.port,
            txt_data: self.txt_data.deep_view(),
        }
    }
}

/// An IP address, as the octets of an A (IPv4) or AAAA (IPv6) record.
#[derive(Debug, Clone, Copy, PartialEq, Eq)]
pub enum IpAddress {
    V4([u8; 4]),
    V6([u8; 16]),
}

impl View for IpAddress {
    type V = Seq<u8>;

    /// The octets, most significant first.
    open spec fn view(&self) -> Seq<u8> {
        match self {
            IpAddress::V4(a) => a@,
            IpAddress::V6(a) => a@,
        }
    }
}

/// A host name and one of its addresses.
#[derive(Debug, PartialEq, Eq)]
pub struct AddressInfo {
    pub hostname: String,
    pub address: IpAddress,
}

/// What an [`AddressInfo`] holds.
pub struct AddressInfoView {
    pub hostname: Seq<char>,
    pub address: Seq<u8>,
}

impl View for AddressInfo {
    type V = AddressInfoView;

    open spec fn view(&self) -> AddressInfoView {
        AddressInfoView { hostname: self.hostname@, address: self.address@ }
    }
}

/// An event read from the daemon.
#[derive(Debug, PartialEq, Eq)]
pub enum MDnsResponderEvent {
    ServiceAdded(Service),
    ServiceRemoved(Service),
    ServiceResolved(Resolved),
    AddressInfoResolved(AddressInfo),
}

/// What an [`MDnsResponderEvent`] holds.
pub enum EventView {
    ServiceAdded(ServiceView),
    ServiceRemoved(ServiceView),
    ServiceResolved(ResolvedView),
    AddressInfoResolved(AddressInfoView),
}

impl View for MDnsResponderEvent {
    type V = EventView;

    open spec fn view(&self) -> EventView {
        match self {
            MDnsResponderEvent::ServiceAdded(s) => EventView::ServiceAdded(s@),
            MDnsResponderEvent::ServiceRemoved(s) => EventView::ServiceRemoved(s@),
            MDnsResponderEvent::ServiceResolved(r) => EventView::ServiceResolved(r@),
            MDnsResponderEvent::AddressInfoResolved(a) => EventView::AddressInfoResolved(a@),
        }
    }
}

impl DeepView for MDnsResponderEvent {
    type V = EventView;

    open spec fn deep_view(&self) -> EventView {
        self@
    }
}

/// Which address families an address lookup asks for.
#[derive(Debug, Clone, Copy, PartialEq, Eq, Structural)]
pub enum Protocol {
    IPv4,
    IPv6,
    Both,
}

} // verus!
